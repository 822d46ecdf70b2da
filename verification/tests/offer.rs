use sage_sync::offer::{OfferRecord, OfferRecordStatus};

#[test]
fn status_codes_are_stored_numbers() {
    assert_eq!(OfferRecordStatus::Active.code(), 0);
    assert_eq!(OfferRecordStatus::Completed.code(), 1);
    assert_eq!(OfferRecordStatus::Cancelled.code(), 2);
    assert_eq!(OfferRecordStatus::Expired.code(), 3);
}

#[test]
fn status_from_code_round_trips() {
    assert_eq!(OfferRecordStatus::from_code(0), Some(OfferRecordStatus::Active));
    assert_eq!(OfferRecordStatus::from_code(1), Some(OfferRecordStatus::Completed));
    assert_eq!(OfferRecordStatus::from_code(2), Some(OfferRecordStatus::Cancelled));
    assert_eq!(OfferRecordStatus::from_code(3), Some(OfferRecordStatus::Expired));
    assert_eq!(OfferRecordStatus::from_code(4), None);
    assert_eq!(OfferRecordStatus::from_code(255), None);
}

#[test]
fn offer_record_keeps_its_fields() {
    let record = OfferRecord {
        offer: String::from("offer1abc"),
        status: OfferRecordStatus::Active,
        creation_date: String::from("2024-09-01"),
    };
    let copy = record.clone();
    assert_eq!(copy.offer, "offer1abc");
    assert_eq!(copy.status, OfferRecordStatus::Active);
    assert_eq!(copy.creation_date, "2024-09-01");
}

//! Records of offers that the wallet has made or taken.

use vstd::prelude::*;

verus! {

/// Where an offer stands in its life.
#[derive(Debug, Clone, Copy, PartialEq, Eq, Structural)]
pub enum OfferRecordStatus {
    Active,
    Completed,
    Cancelled,
    Expired,
}

impl OfferRecordStatus {
    /// The number under which a status is stored.
    pub open spec fn spec_code(self) -> u8 {
        match self {
            OfferRecordStatus::Active => 0,
            OfferRecordStatus::Completed => 1,
            OfferRecordStatus::Cancelled => 2,
            OfferRecordStatus::Expired => 3,
        }
    }

    /// The number under which this status is stored.
    pub fn code(self) -> (c: u8)
        ensures
            c == self.spec_code(),
    {
        match self {
            OfferRecordStatus::Active => 0,
            OfferRecordStatus::Completed => 1,
            OfferRecordStatus::Cancelled => 2,
            OfferRecordStatus::Expired => 3,
        }
    }

    /// The status stored under `code`, if there is one.
    pub fn from_code(code: u8) -> (s: Option<OfferRecordStatus>)
        ensures
            code <= 3 <==> s.is_some(),
            s matches Some(status) ==> status.spec_code() == code,
    {
        if code == 0 {
            Some(OfferRecordStatus::Active)
        } else if code == 1 {
            Some(OfferRecordStatus::Completed)
        } else if code == 2 {
            Some(OfferRecordStatus::Cancelled)
        } else if code == 3 {
            Some(OfferRecordStatus::Expired)
        } else {
            None
        }
    }
}

/// An offer file together with its status and the time it was made.
#[derive(Debug, Clone)]
pub struct OfferRecord {
    pub offer: String,
    pub status: OfferRecordStatus,
    pub creation_date: String,
}

} // verus!

use sage_sync::bytes::Bytes32;
use sage_sync::derivation::{DerivedRange, KeyMaterial};
use sage_sync::error::Error;
use sage_sync::peers::{IpAddress, Peer, PeerRegistry};
use sage_sync::store::{CoinStateStore, LauncherKind};
use sage_sync::sync::{
    apply_batch, next_request, receive, recovery_for, resync, snapshot, Batch, CoinDelta,
    Lineage, Place, Recovery, SyncAction,
};

fn hash(byte: u8) -> Bytes32 {
    Bytes32::new([byte; 32])
}

/// Keys that give the hash `i` for the unhardened index `i`, up to `count`.
fn keys(count: u8) -> KeyMaterial {
    KeyMaterial {
        unhardened: DerivedRange { start: 0, hashes: (0..count).map(hash).collect() },
        hardened: DerivedRange { start: 0, hashes: vec![] },
    }
}

fn delta(id: u8, owner: u8, amount: u64, created: Option<u32>, spent: Option<u32>) -> CoinDelta {
    CoinDelta {
        coin_id: hash(id),
        owner_puzzle_hash: hash(owner),
        amount,
        created_height: created,
        spent_height: spent,
        place: None,
        lineage: None,
    }
}

fn peer(last: u8) -> Peer {
    Peer { ip: IpAddress::V4(u32::from_be_bytes([10, 0, 0, last])), port: 8444 }
}

/// A store with the unhardened indices 0 to 4 allocated.
fn store_with_five_indices() -> CoinStateStore {
    let mut tx = CoinStateStore::new().begin();
    for _ in 0..5 {
        tx.allocate_next(false, &keys(5)).unwrap();
    }
    tx.commit()
}

#[test]
fn batch_creates_and_then_spends_a_coin() {
    let mut store = store_with_five_indices();
    let created = vec![delta(0xa0, 1, 1000, Some(10), None)];
    assert_eq!(apply_batch(&mut store, &keys(5), &created, 10), Ok(()));
    assert_eq!(store.balance(), 1000);
    assert_eq!(store.total_coin_count(), 1);
    assert_eq!(store.synced_coin_count(), 1);
    assert_eq!(store.synced_height(), 10);

    let spent = vec![delta(0xa0, 1, 1000, None, Some(20))];
    assert_eq!(apply_batch(&mut store, &keys(5), &spent, 20), Ok(()));
    assert_eq!(store.balance(), 0);
    assert_eq!(store.total_coin_count(), 1);
    let coin = store.coin(&hash(0xa0)).unwrap();
    assert_eq!(coin.created_height, Some(10));
    assert_eq!(coin.spent_height, Some(20));
}

#[test]
fn coin_beyond_the_allocated_range_extends_it() {
    let mut store = store_with_five_indices();
    let mut report = delta(0xa0, 7, 1, Some(3), None);
    report.place = Some(Place { hardened: false, index: 7 });
    assert_eq!(apply_batch(&mut store, &keys(8), &vec![report], 3), Ok(()));
    let derivations = store.derivations();
    assert_eq!(derivations.allocated(false), 8);
    for index in 0..7u32 {
        let record = derivations.record(index, false).unwrap();
        assert_eq!(record.index, index);
        assert!(!record.used);
    }
    let last = derivations.record(7, false).unwrap();
    assert_eq!(last.index, 7);
    assert!(last.used);
    assert!(last.puzzle_hash.same(&hash(7)));
    assert_eq!(derivations.current_receive_index(false), Some(7));
    assert_eq!(store.balance(), 1);
}

#[test]
fn coin_at_an_allocated_index_marks_it_used() {
    let mut store = store_with_five_indices();
    let report = delta(0xa0, 2, 9, Some(3), None);
    assert_eq!(apply_batch(&mut store, &keys(5), &vec![report], 3), Ok(()));
    assert_eq!(store.derivations().allocated(false), 5);
    assert!(store.derivations().record(2, false).unwrap().used);
    assert!(!store.derivations().record(1, false).unwrap().used);
    assert_eq!(store.derivations().current_receive_index(false), Some(3));
}

#[test]
fn coin_of_a_stranger_marks_nothing() {
    let mut store = store_with_five_indices();
    let report = delta(0xa0, 0x77, 9, Some(3), None);
    assert_eq!(apply_batch(&mut store, &keys(5), &vec![report], 3), Ok(()));
    assert_eq!(store.derivations().max_used_index(false), None);
    assert_eq!(store.balance(), 0);
    assert_eq!(store.total_coin_count(), 1);
}

#[test]
fn missing_key_material_aborts_the_batch() {
    let mut store = store_with_five_indices();
    let first = delta(0xa0, 1, 10, Some(3), None);
    let mut second = delta(0xa1, 7, 1, Some(3), None);
    second.place = Some(Place { hardened: false, index: 7 });
    let done = apply_batch(&mut store, &keys(7), &vec![first, second], 3);
    assert_eq!(done, Err(Error::KeyDerivationError));
    assert_eq!(store.total_coin_count(), 0);
    assert_eq!(store.balance(), 0);
    assert_eq!(store.synced_height(), 0);
    assert_eq!(store.derivations().allocated(false), 5);
    assert_eq!(store.derivations().max_used_index(false), None);
}

#[test]
fn malformed_update_aborts_the_whole_batch() {
    let mut store = store_with_five_indices();
    apply_batch(&mut store, &keys(5), &vec![delta(0xa0, 1, 10, Some(5), None)], 5).unwrap();
    let batch = vec![
        delta(0xa1, 2, 20, Some(6), None),
        delta(0xa0, 1, 10, None, Some(4)),
        delta(0xa2, 3, 30, Some(7), None),
    ];
    assert_eq!(apply_batch(&mut store, &keys(5), &batch, 7), Err(Error::InvalidHeightTransition));
    assert_eq!(store.total_coin_count(), 1);
    assert_eq!(store.balance(), 10);
    assert_eq!(store.synced_height(), 5);
    assert!(store.coin(&hash(0xa1)).is_none());
    assert!(!store.derivations().record(2, false).unwrap().used);
}

#[test]
fn spend_of_an_unknown_coin_needs_its_creation() {
    let mut store = store_with_five_indices();
    let alone = vec![delta(0xa0, 1, 10, None, Some(9))];
    assert_eq!(apply_batch(&mut store, &keys(5), &alone, 9), Err(Error::InvalidHeightTransition));
    let together = vec![delta(0xa0, 1, 10, Some(4), Some(9))];
    assert_eq!(apply_batch(&mut store, &keys(5), &together, 9), Ok(()));
    assert_eq!(store.balance(), 0);
    assert_eq!(store.total_coin_count(), 1);
}

#[test]
fn applying_a_delta_twice_is_applying_it_once() {
    let mut report = delta(0xa0, 6, 10, Some(4), None);
    report.place = Some(Place { hardened: false, index: 6 });
    report.lineage = Some(Lineage { kind: LauncherKind::Identity, launcher_id: hash(0x44) });

    let mut once = store_with_five_indices();
    apply_batch(&mut once, &keys(8), &vec![report], 4).unwrap();
    let mut twice = store_with_five_indices();
    apply_batch(&mut twice, &keys(8), &vec![report, report], 4).unwrap();
    apply_batch(&mut twice, &keys(8), &vec![report], 4).unwrap();

    assert_eq!(once.total_coin_count(), twice.total_coin_count());
    assert_eq!(once.balance(), twice.balance());
    assert_eq!(once.synced_height(), twice.synced_height());
    assert_eq!(once.derivations().allocated(false), 7);
    assert_eq!(twice.derivations().allocated(false), 7);
    assert_eq!(twice.derivations().max_used_index(false), Some(6));
    assert_eq!(once.identity_list().len(), 1);
    assert_eq!(twice.identity_list().len(), 1);
    let coin = twice.coin(&hash(0xa0)).unwrap();
    assert_eq!(coin.created_height, Some(4));
    assert_eq!(coin.spent_height, None);
}

#[test]
fn lineage_follows_the_unspent_coin() {
    let mut store = store_with_five_indices();
    let lineage = Some(Lineage { kind: LauncherKind::TokenHolder, launcher_id: hash(0x55) });
    let mut first = delta(0xa0, 1, 1, Some(4), None);
    first.lineage = lineage;
    apply_batch(&mut store, &keys(5), &vec![first], 4).unwrap();
    assert!(store.resolve_token_holder(&hash(0x55)).unwrap().coin_id.same(&hash(0xa0)));

    let mut spend = delta(0xa0, 1, 1, None, Some(8));
    spend.lineage = lineage;
    let mut successor = delta(0xa1, 2, 1, Some(8), None);
    successor.lineage = lineage;
    apply_batch(&mut store, &keys(5), &vec![successor, spend], 8).unwrap();
    let holder = store.resolve_token_holder(&hash(0x55)).unwrap();
    assert!(holder.coin_id.same(&hash(0xa1)));
    assert!(holder.owner_puzzle_hash.same(&hash(2)));
    assert_eq!(store.token_holder_list().len(), 1);
    assert!(store.identity_list().is_empty());
}

#[test]
fn empty_batch_only_advances_the_height() {
    let mut store = store_with_five_indices();
    assert_eq!(apply_batch(&mut store, &keys(5), &vec![], 42), Ok(()));
    assert_eq!(store.synced_height(), 42);
    assert_eq!(apply_batch(&mut store, &keys(5), &vec![], 7), Ok(()));
    assert_eq!(store.synced_height(), 42);
    assert_eq!(store.total_coin_count(), 0);
}

#[test]
fn resync_resets_the_height_and_keeps_the_records() {
    let mut store = store_with_five_indices();
    apply_batch(&mut store, &keys(5), &vec![delta(0xa0, 1, 10, Some(5), None)], 5).unwrap();
    resync(&mut store);
    assert_eq!(store.synced_height(), 0);
    assert_eq!(store.total_coin_count(), 1);
    assert_eq!(store.balance(), 10);
    assert_eq!(store.synced_coin_count(), 0);
    apply_batch(&mut store, &keys(5), &vec![delta(0xa0, 1, 10, Some(5), None)], 5).unwrap();
    assert_eq!(store.synced_height(), 5);
    assert_eq!(store.total_coin_count(), 1);
    assert_eq!(store.synced_coin_count(), 1);
}

#[test]
fn next_request_asks_the_lowest_untried_peer() {
    let mut store = CoinStateStore::new();
    apply_batch(&mut store, &keys(0), &vec![], 17).unwrap();
    let mut registry = PeerRegistry::new();
    registry.add(peer(9));
    registry.add(peer(3));
    registry.add(peer(5));
    let first = next_request(&mut registry, &store, &vec![]);
    assert_eq!(first, SyncAction::Fetch { peer: peer(3), since_height: 17 });
    let second = next_request(&mut registry, &store, &vec![peer(3).ip]);
    assert_eq!(second, SyncAction::Fetch { peer: peer(5), since_height: 17 });
    let third = next_request(&mut registry, &store, &vec![peer(5).ip, peer(3).ip]);
    assert_eq!(third, SyncAction::Fetch { peer: peer(9), since_height: 17 });
    assert_eq!(registry.complete_request(peer(9).ip), Ok(()));
}

#[test]
fn next_request_stalls_when_every_peer_was_tried() {
    let store = CoinStateStore::new();
    let mut registry = PeerRegistry::new();
    assert_eq!(next_request(&mut registry, &store, &vec![]), SyncAction::Stalled);
    registry.add(peer(3));
    assert_eq!(next_request(&mut registry, &store, &vec![peer(3).ip]), SyncAction::Stalled);
    assert_eq!(registry.complete_request(peer(3).ip), Err(Error::PeerUnavailable));
}

#[test]
fn receive_applies_the_batch_of_an_active_peer() {
    let mut store = store_with_five_indices();
    let mut registry = PeerRegistry::new();
    registry.add(peer(3));
    next_request(&mut registry, &store, &vec![]);
    let batch = Batch { deltas: vec![delta(0xa0, 1, 10, Some(5), None)], height: 5 };
    assert_eq!(receive(&mut registry, &mut store, &keys(5), peer(3).ip, Ok(batch)), Ok(()));
    assert_eq!(store.balance(), 10);
    assert_eq!(store.synced_height(), 5);
    assert_eq!(registry.complete_request(peer(3).ip), Err(Error::PeerUnavailable));
}

#[test]
fn receive_fails_when_the_peer_was_banned_meanwhile() {
    let mut store = store_with_five_indices();
    let mut registry = PeerRegistry::new();
    registry.add(peer(3));
    next_request(&mut registry, &store, &vec![]);
    registry.ban(peer(3).ip);
    let batch = Batch { deltas: vec![delta(0xa0, 1, 10, Some(5), None)], height: 5 };
    let done = receive(&mut registry, &mut store, &keys(5), peer(3).ip, Ok(batch));
    assert_eq!(done, Err(Error::PeerUnavailable));
    assert_eq!(store.total_coin_count(), 0);
    assert_eq!(store.synced_height(), 0);
    assert!(registry.list().is_empty());
}

#[test]
fn receive_passes_on_a_peer_failure_without_advancing() {
    let mut store = store_with_five_indices();
    let mut registry = PeerRegistry::new();
    registry.add(peer(3));
    next_request(&mut registry, &store, &vec![]);
    let done = receive(&mut registry, &mut store, &keys(5), peer(3).ip, Err(Error::Timeout));
    assert_eq!(done, Err(Error::Timeout));
    assert_eq!(store.synced_height(), 0);
    assert_eq!(registry.list(), vec![peer(3)]);
}

#[test]
fn receive_without_a_request_fails() {
    let mut store = store_with_five_indices();
    let mut registry = PeerRegistry::new();
    registry.add(peer(3));
    let batch = Batch { deltas: vec![], height: 5 };
    let done = receive(&mut registry, &mut store, &keys(5), peer(3).ip, Ok(batch));
    assert_eq!(done, Err(Error::PeerUnavailable));
    assert_eq!(store.synced_height(), 0);
}

#[test]
fn recovery_depends_on_the_error() {
    assert_eq!(recovery_for(Error::PeerUnavailable), Recovery::Rotate);
    assert_eq!(recovery_for(Error::Timeout), Recovery::Rotate);
    assert_eq!(recovery_for(Error::InvalidHeightTransition), Recovery::RetryBatch);
    assert_eq!(recovery_for(Error::KeyDerivationError), Recovery::Surface);
    assert_eq!(recovery_for(Error::NoActiveWallet), Recovery::Surface);
    assert_eq!(recovery_for(Error::CoinStateNotFound), Recovery::Surface);
    assert_eq!(recovery_for(Error::AddressEncoding), Recovery::Surface);
    assert_eq!(recovery_for(Error::UnknownFingerprint), Recovery::Surface);
}

#[test]
fn snapshot_is_computed_from_the_store() {
    let mut store = store_with_five_indices();
    let batch = vec![delta(0xa0, 1, 10, Some(5), None), delta(0xa1, 0x77, 99, Some(6), None)];
    apply_batch(&mut store, &keys(5), &batch, 5).unwrap();
    let taken = snapshot(&store).unwrap();
    assert_eq!(taken.balance, 10);
    assert_eq!(taken.total_coin_count, 2);
    assert_eq!(taken.synced_coin_count, 1);
    assert!(taken.next_receive_puzzle_hash.same(&hash(2)));
}

#[test]
fn snapshot_needs_an_allocated_address() {
    let store = CoinStateStore::new();
    assert_eq!(snapshot(&store).unwrap_err(), Error::KeyDerivationError);
}

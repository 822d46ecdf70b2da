use sage_sync::bytes::Bytes32;
use sage_sync::derivation::{DerivedRange, KeyMaterial};
use sage_sync::error::Error;
use sage_sync::store::{Coin, CoinStateStore, LauncherCoin, LauncherKind};

fn hash(byte: u8) -> Bytes32 {
    Bytes32::new([byte; 32])
}

fn keys() -> KeyMaterial {
    KeyMaterial {
        unhardened: DerivedRange { start: 0, hashes: vec![hash(1), hash(2), hash(3)] },
        hardened: DerivedRange { start: 0, hashes: vec![hash(101)] },
    }
}

fn coin(id: u8, owner: u8, amount: u64, created: Option<u32>, spent: Option<u32>) -> Coin {
    Coin {
        coin_id: hash(id),
        owner_puzzle_hash: hash(owner),
        amount,
        created_height: created,
        spent_height: spent,
    }
}

/// A store whose wallet owns the puzzle hashes 1, 2 and 3.
fn store_with_addresses() -> CoinStateStore {
    let mut tx = CoinStateStore::new().begin();
    for _ in 0..3 {
        tx.allocate_next(false, &keys()).unwrap();
    }
    tx.commit()
}

#[test]
fn coin_heights_have_to_be_in_order() {
    assert!(coin(1, 1, 5, None, None).has_valid_heights());
    assert!(coin(1, 1, 5, Some(3), None).has_valid_heights());
    assert!(coin(1, 1, 5, Some(3), Some(3)).has_valid_heights());
    assert!(coin(1, 1, 5, Some(3), Some(9)).has_valid_heights());
    assert!(!coin(1, 1, 5, Some(3), Some(2)).has_valid_heights());
    assert!(!coin(1, 1, 5, None, Some(2)).has_valid_heights());
}

#[test]
fn store_at_genesis_is_empty() {
    let store = CoinStateStore::new();
    assert_eq!(store.balance(), 0);
    assert_eq!(store.total_coin_count(), 0);
    assert_eq!(store.synced_coin_count(), 0);
    assert_eq!(store.synced_height(), 0);
    assert!(store.identity_list().is_empty());
    assert!(store.token_holder_list().is_empty());
    assert!(store.owned_coins().is_empty());
}

#[test]
fn coin_is_created_and_then_spent() {
    let mut store = store_with_addresses();
    let mut tx = store.begin();
    assert_eq!(tx.upsert_coin(coin(0xa0, 1, 1000, Some(10), None)), Ok(()));
    tx.advance_synced_height(10);
    store = tx.commit();
    assert_eq!(store.balance(), 1000);
    assert_eq!(store.total_coin_count(), 1);
    assert_eq!(store.synced_coin_count(), 1);

    let mut tx = store.begin();
    assert_eq!(tx.upsert_coin(coin(0xa0, 1, 1000, Some(10), Some(20))), Ok(()));
    store = tx.commit();
    assert_eq!(store.balance(), 0);
    assert_eq!(store.total_coin_count(), 1);
}

#[test]
fn changes_are_not_seen_before_commit() {
    let store = store_with_addresses();
    let mut tx = store.begin();
    tx.upsert_coin(coin(0xa0, 1, 1000, Some(10), None)).unwrap();
    assert_eq!(tx.store().balance(), 1000);
    assert_eq!(tx.committed().balance(), 0);
    assert_eq!(tx.committed().total_coin_count(), 0);
    let store = tx.commit();
    assert_eq!(store.balance(), 1000);
    assert_eq!(store.total_coin_count(), 1);
}

#[test]
fn aborted_transaction_changes_nothing() {
    let store = store_with_addresses();
    let mut tx = store.begin();
    tx.upsert_coin(coin(0xa0, 1, 1000, Some(10), None)).unwrap();
    tx.advance_synced_height(50);
    tx.allocate_next(true, &keys()).unwrap();
    tx.mark_used(0, false);
    let store = tx.abort();
    assert_eq!(store.balance(), 0);
    assert_eq!(store.total_coin_count(), 0);
    assert_eq!(store.synced_height(), 0);
    assert_eq!(store.derivations().allocated(true), 0);
    assert_eq!(store.derivations().max_used_index(false), None);
    let store = store.begin().commit();
    assert_eq!(store.total_coin_count(), 0);
    assert_eq!(store.derivations().allocated(false), 3);
}

#[test]
fn balance_counts_unspent_coins_of_the_wallet_only() {
    let mut store = store_with_addresses();
    let mut tx = store.begin();
    tx.upsert_coin(coin(0xa0, 1, 1000, Some(10), None)).unwrap();
    tx.upsert_coin(coin(0xa1, 2, 250, Some(11), None)).unwrap();
    tx.upsert_coin(coin(0xa2, 3, 40, Some(12), Some(15))).unwrap();
    tx.upsert_coin(coin(0xa3, 99, 7000, Some(12), None)).unwrap();
    tx.upsert_coin(coin(0xa4, 1, 3, None, None)).unwrap();
    store = tx.commit();
    assert_eq!(store.balance(), 1253);
    assert_eq!(store.total_coin_count(), 5);
    let owned = store.owned_coins();
    assert_eq!(owned.len(), 4);
    assert!(owned[0].coin_id.same(&hash(0xa0)));
    assert!(owned[3].coin_id.same(&hash(0xa4)));
}

#[test]
fn balance_follows_a_replay_of_creations_and_spends() {
    let mut store = store_with_addresses();
    let script: Vec<(Coin, u128)> = vec![
        (coin(0xa0, 1, 100, Some(1), None), 100),
        (coin(0xa1, 2, 50, Some(2), None), 150),
        (coin(0xa0, 1, 100, Some(1), Some(3)), 50),
        (coin(0xa2, 3, 7, Some(4), None), 57),
        (coin(0xa1, 2, 50, Some(2), Some(5)), 7),
        (coin(0xa2, 3, 7, Some(4), Some(6)), 0),
    ];
    for (update, expected) in script {
        let mut tx = store.begin();
        tx.upsert_coin(update).unwrap();
        store = tx.commit();
        assert_eq!(store.balance(), expected);
    }
    assert_eq!(store.total_coin_count(), 3);
}

#[test]
fn balance_does_not_overflow_a_u64() {
    let mut store = store_with_addresses();
    let mut tx = store.begin();
    tx.upsert_coin(coin(0xa0, 1, u64::MAX, Some(1), None)).unwrap();
    tx.upsert_coin(coin(0xa1, 1, u64::MAX, Some(1), None)).unwrap();
    store = tx.commit();
    assert_eq!(store.balance(), 2 * (u64::MAX as u128));
}

#[test]
fn upsert_refuses_a_spend_before_the_creation() {
    let mut store = store_with_addresses();
    let mut tx = store.begin();
    assert_eq!(
        tx.upsert_coin(coin(0xa0, 1, 5, Some(10), Some(9))),
        Err(Error::InvalidHeightTransition)
    );
    assert_eq!(
        tx.upsert_coin(coin(0xa0, 1, 5, None, Some(9))),
        Err(Error::InvalidHeightTransition)
    );
    assert_eq!(tx.store().total_coin_count(), 0);
    let store = tx.commit();
    assert_eq!(store.total_coin_count(), 0);
}

#[test]
fn upsert_refuses_to_clear_a_height() {
    let mut store = store_with_addresses();
    let mut tx = store.begin();
    tx.upsert_coin(coin(0xa0, 1, 5, Some(10), Some(20))).unwrap();
    assert_eq!(
        tx.upsert_coin(coin(0xa0, 1, 5, Some(10), None)),
        Err(Error::InvalidHeightTransition)
    );
    assert_eq!(
        tx.upsert_coin(coin(0xa0, 1, 5, None, None)),
        Err(Error::InvalidHeightTransition)
    );
    let stored = tx.store().coin(&hash(0xa0)).unwrap();
    assert_eq!(stored.created_height, Some(10));
    assert_eq!(stored.spent_height, Some(20));
}

#[test]
fn upsert_updates_the_heights_of_a_known_coin() {
    let mut store = store_with_addresses();
    let mut tx = store.begin();
    tx.upsert_coin(coin(0xa0, 1, 5, None, None)).unwrap();
    tx.upsert_coin(coin(0xa0, 1, 5, Some(10), None)).unwrap();
    assert_eq!(tx.store().coin(&hash(0xa0)).unwrap().created_height, Some(10));
    tx.upsert_coin(coin(0xa0, 1, 5, Some(10), Some(12))).unwrap();
    store = tx.commit();
    let stored = store.coin(&hash(0xa0)).unwrap();
    assert_eq!(stored.created_height, Some(10));
    assert_eq!(stored.spent_height, Some(12));
    assert_eq!(stored.amount, 5);
    assert_eq!(store.total_coin_count(), 1);
    assert!(store.coin(&hash(0xa1)).is_none());
}

#[test]
fn upsert_twice_is_upsert_once() {
    let mut store = store_with_addresses();
    let update = coin(0xa0, 1, 5, Some(10), Some(12));
    let mut tx = store.begin();
    assert_eq!(tx.upsert_coin(update), Ok(()));
    assert_eq!(tx.upsert_coin(update), Ok(()));
    store = tx.commit();
    assert_eq!(store.total_coin_count(), 1);
    let stored = store.coin(&hash(0xa0)).unwrap();
    assert_eq!(stored.created_height, Some(10));
    assert_eq!(stored.spent_height, Some(12));
}

#[test]
fn synced_count_is_of_coins_created_up_to_the_synced_height() {
    let mut store = store_with_addresses();
    let mut tx = store.begin();
    tx.upsert_coin(coin(0xa0, 1, 5, Some(10), None)).unwrap();
    tx.upsert_coin(coin(0xa1, 1, 5, Some(11), None)).unwrap();
    tx.upsert_coin(coin(0xa2, 1, 5, None, None)).unwrap();
    tx.advance_synced_height(10);
    store = tx.commit();
    assert_eq!(store.synced_coin_count(), 1);
    assert_eq!(store.total_coin_count(), 3);
    let mut tx = store.begin();
    tx.advance_synced_height(11);
    store = tx.commit();
    assert_eq!(store.synced_coin_count(), 2);
}

#[test]
fn synced_height_only_moves_up_until_it_is_reset() {
    let mut store = CoinStateStore::new();
    let mut tx = store.begin();
    tx.advance_synced_height(30);
    tx.advance_synced_height(20);
    store = tx.commit();
    assert_eq!(store.synced_height(), 30);
    let mut tx = store.begin();
    tx.reset_synced_height();
    store = tx.commit();
    assert_eq!(store.synced_height(), 0);
}

#[test]
fn identity_is_listed_while_its_coin_is_unspent() {
    let mut store = store_with_addresses();
    let record = LauncherCoin {
        kind: LauncherKind::Identity,
        launcher_id: hash(0x44),
        coin_id: hash(0xa0),
        owner_puzzle_hash: hash(1),
    };
    let mut tx = store.begin();
    tx.upsert_coin(coin(0xa0, 1, 1, Some(10), None)).unwrap();
    tx.record_launcher_coin(record);
    store = tx.commit();
    let listed = store.identity_list();
    assert_eq!(listed.len(), 1);
    assert!(listed[0].launcher_id.same(&hash(0x44)));
    assert!(listed[0].coin_id.same(&hash(0xa0)));
    assert!(store.token_holder_list().is_empty());
    assert!(store.resolve_identity(&hash(0x44)).unwrap().coin_id.same(&hash(0xa0)));
    assert!(store.resolve_token_holder(&hash(0x44)).is_none());

    let mut tx = store.begin();
    tx.upsert_coin(coin(0xa0, 1, 1, Some(10), Some(20))).unwrap();
    store = tx.commit();
    assert!(store.identity_list().is_empty());
    assert!(store.resolve_identity(&hash(0x44)).is_none());
}

#[test]
fn successor_supersedes_the_coin_of_its_launcher() {
    let mut store = store_with_addresses();
    let mut tx = store.begin();
    tx.upsert_coin(coin(0xa0, 1, 1, Some(10), Some(20))).unwrap();
    tx.upsert_coin(coin(0xa1, 2, 1, Some(20), None)).unwrap();
    tx.record_launcher_coin(LauncherCoin {
        kind: LauncherKind::TokenHolder,
        launcher_id: hash(0x55),
        coin_id: hash(0xa0),
        owner_puzzle_hash: hash(1),
    });
    tx.record_launcher_coin(LauncherCoin {
        kind: LauncherKind::TokenHolder,
        launcher_id: hash(0x55),
        coin_id: hash(0xa1),
        owner_puzzle_hash: hash(2),
    });
    store = tx.commit();
    let listed = store.token_holder_list();
    assert_eq!(listed.len(), 1);
    assert!(listed[0].coin_id.same(&hash(0xa1)));
    assert!(listed[0].owner_puzzle_hash.same(&hash(2)));
}

#[test]
fn unknown_launcher_resolves_to_nothing() {
    let store = store_with_addresses();
    assert!(store.resolve_identity(&hash(0x44)).is_none());
    assert!(store.resolve_token_holder(&hash(0x44)).is_none());
}

#[test]
fn launcher_whose_coin_is_unknown_is_not_listed() {
    let mut store = store_with_addresses();
    let mut tx = store.begin();
    tx.record_launcher_coin(LauncherCoin {
        kind: LauncherKind::Identity,
        launcher_id: hash(0x44),
        coin_id: hash(0xa0),
        owner_puzzle_hash: hash(1),
    });
    store = tx.commit();
    assert!(store.identity_list().is_empty());
    assert!(store.resolve_identity(&hash(0x44)).is_none());
}

#[test]
fn transaction_reaches_the_derivation_records() {
    let mut store = CoinStateStore::new();
    let mut tx = store.begin();
    assert_eq!(tx.allocate_next(false, &keys()).unwrap().index, 0);
    assert_eq!(tx.allocate_next(false, &keys()).unwrap().index, 1);
    assert!(tx.mark_used(0, false));
    assert!(!tx.mark_used(5, false));
    assert_eq!(
        tx.allocate_next(true, &KeyMaterial::empty()).unwrap_err(),
        Error::KeyDerivationError
    );
    assert_eq!(tx.committed().derivations().allocated(false), 0);
    store = tx.commit();
    assert_eq!(store.derivations().allocated(false), 2);
    assert_eq!(store.derivations().current_receive_index(false), Some(1));
}

use chia_wallet_sdk::utils::{Address, Bech32Error};
use sage_sync::app_state::{AppState, Config, NetworkConfig, Wallet};
use sage_sync::bytes::Bytes32;
use sage_sync::derivation::{DerivedRange, KeyMaterial};
use sage_sync::error::Error;
use sage_sync::store::{Coin, CoinStateStore, LauncherCoin, LauncherKind, Transaction};
use sage_sync::sync::SyncSnapshot;
use sage_sync::wallet::{
    address_or_error, coin_data, coin_list, did_list, found_or_error, launcher_data, nft_list,
    prefix_matches, sync_info, sync_info_of, validate_address,
};

fn hash(byte: u8) -> Bytes32 {
    Bytes32::new([byte; 32])
}

fn keys() -> KeyMaterial {
    KeyMaterial {
        unhardened: DerivedRange { start: 0, hashes: vec![hash(0x11), hash(0x22), hash(0x33)] },
        hardened: DerivedRange { start: 0, hashes: vec![] },
    }
}

fn state(prefix: &str) -> AppState {
    let config = Config {
        network: NetworkConfig {
            network_id: String::from("mainnet"),
            target_peers: 5,
            discover_peers: true,
        },
        wallets: vec![],
    };
    AppState::new(config, vec![], String::from(prefix))
}

fn coin(id: u8, owner: u8, amount: u64, created: Option<u32>, spent: Option<u32>) -> Coin {
    Coin {
        coin_id: hash(id),
        owner_puzzle_hash: hash(owner),
        amount,
        created_height: created,
        spent_height: spent,
    }
}

/// A state whose wallet owns the hashes 0x11, 0x22 and 0x33 and holds the
/// given coins.
fn state_with_coins(prefix: &str, coins: Vec<Coin>) -> AppState {
    let mut tx = CoinStateStore::new().begin();
    for _ in 0..3 {
        tx.allocate_next(false, &keys()).unwrap();
    }
    for coin in coins {
        tx.upsert_coin(coin).unwrap();
    }
    let mut state = state(prefix);
    state.wallet = Some(Wallet { db: tx.commit() });
    state
}

/// Runs `change` in a transaction on the wallet's store and commits it.
fn change_store(state: &mut AppState, change: impl FnOnce(&mut Transaction)) {
    let wallet = state.wallet.take().unwrap();
    let mut tx = wallet.db.begin();
    change(&mut tx);
    state.wallet = Some(Wallet { db: tx.commit() });
}

#[test]
fn queries_need_an_active_wallet() {
    let state = state("xch");
    assert_eq!(sync_info(&state).unwrap_err(), Error::NoActiveWallet);
    assert_eq!(coin_list(&state).unwrap_err(), Error::NoActiveWallet);
    assert_eq!(did_list(&state).unwrap_err(), Error::NoActiveWallet);
    assert_eq!(nft_list(&state).unwrap_err(), Error::NoActiveWallet);
}

#[test]
fn sync_info_shows_address_balance_and_counts() {
    let mut state = state_with_coins(
        "xch",
        vec![coin(0xa0, 0x11, 1000, Some(10), None), coin(0xa1, 0x22, 5, Some(30), None)],
    );
    change_store(&mut state, |tx| {
        tx.mark_used(0, false);
        tx.advance_synced_height(10);
    });

    let info = sync_info(&state).unwrap();
    assert_eq!(info.address, "xch1yg3zyg3zyg3zyg3zyg3zyg3zyg3zyg3zyg3zyg3zyg3zyg3zyg3qzarh9q");
    assert_eq!(info.balance, 1005);
    assert_eq!(info.ticker, "XCH");
    assert_eq!(info.total_coins, 2);
    assert_eq!(info.synced_coins, 1);
}

#[test]
fn sync_info_address_is_held_back_to_the_last_allocated_index() {
    let mut state = state_with_coins("txch", vec![]);
    change_store(&mut state, |tx| {
        tx.mark_used(2, false);
    });
    let info = sync_info(&state).unwrap();
    let decoded = Address::decode(&info.address).unwrap();
    assert_eq!(decoded.puzzle_hash.to_bytes(), [0x33u8; 32]);
    assert_eq!(decoded.prefix, "txch");
    assert_eq!(info.ticker, "TXCH");
    assert_eq!(info.balance, 0);
}

#[test]
fn sync_info_starts_at_the_first_address() {
    let state = state_with_coins("txch", vec![]);
    let info = sync_info(&state).unwrap();
    assert_eq!(info.address, "txch1zyg3zyg3zyg3zyg3zyg3zyg3zyg3zyg3zyg3zyg3zyg3zyg3zygsuw65al");
}

#[test]
fn sync_info_without_an_address_fails() {
    let mut state = state("xch");
    state.wallet = Some(Wallet { db: CoinStateStore::new() });
    assert_eq!(sync_info(&state).unwrap_err(), Error::KeyDerivationError);
}

#[test]
fn sync_info_with_an_unusable_prefix_fails() {
    let state = state_with_coins("", vec![]);
    assert_eq!(sync_info(&state).unwrap_err(), Error::AddressEncoding);
    let mixed = state_with_coins("Xch", vec![]);
    assert_eq!(sync_info(&mixed).unwrap_err(), Error::AddressEncoding);
}

#[test]
fn sync_info_takes_an_upper_case_prefix() {
    let state = state_with_coins("XCH", vec![]);
    let info = sync_info(&state).unwrap();
    assert_eq!(info.address, "xch1zyg3zyg3zyg3zyg3zyg3zyg3zyg3zyg3zyg3zyg3zyg3zyg3zygs3fazuv");
    assert_eq!(info.ticker, "XCH");
}

#[test]
fn prefix_may_have_up_to_83_visible_characters() {
    let longest = "a".repeat(83);
    assert!(sync_info(&state_with_coins(&longest, vec![])).is_ok());
    let too_long = "a".repeat(84);
    assert_eq!(
        sync_info(&state_with_coins(&too_long, vec![])).unwrap_err(),
        Error::AddressEncoding
    );
    for refused in ["x ch", "x\tch", "xch\u{7f}", "x\u{e9}h", "aB"] {
        assert_eq!(
            sync_info(&state_with_coins(refused, vec![])).unwrap_err(),
            Error::AddressEncoding
        );
    }
    for accepted in ["!", "~", "x1", "did:chia:", "A1Z", "a-z_0"] {
        assert!(sync_info(&state_with_coins(accepted, vec![])).is_ok());
    }
}

#[test]
fn sync_info_of_puts_the_parts_together() {
    let snapshot = SyncSnapshot {
        balance: 12,
        total_coin_count: 3,
        synced_coin_count: 2,
        next_receive_puzzle_hash: hash(1),
    };
    let info = sync_info_of(snapshot, String::from("xch1abc"), String::from("XCH"));
    assert_eq!(info.address, "xch1abc");
    assert_eq!(info.ticker, "XCH");
    assert_eq!(info.balance, 12);
    assert_eq!(info.total_coins, 3);
    assert_eq!(info.synced_coins, 2);
}

#[test]
fn address_or_error_maps_the_outside_error() {
    assert_eq!(address_or_error(Ok(String::from("xch1abc"))), Ok(String::from("xch1abc")));
    assert_eq!(address_or_error(Err(Bech32Error::InvalidFormat)), Err(Error::AddressEncoding));
    assert_eq!(address_or_error(Err(Bech32Error::WrongLength(3))), Err(Error::AddressEncoding));
}

#[test]
fn coin_list_shows_the_coins_of_the_wallet() {
    let state = state_with_coins(
        "xch",
        vec![
            coin(0xa0, 0x11, 1000, Some(10), None),
            coin(0xa1, 0x77, 5, Some(30), None),
            coin(0xa2, 0x33, 7, Some(11), Some(12)),
        ],
    );
    let list = coin_list(&state).unwrap();
    assert_eq!(list.len(), 2);
    assert!(list[0].coin_id.same(&hash(0xa0)));
    assert_eq!(list[0].address, "xch1zyg3zyg3zyg3zyg3zyg3zyg3zyg3zyg3zyg3zyg3zyg3zyg3zygs3fazuv");
    assert_eq!(list[0].created_height, Some(10));
    assert_eq!(list[0].spent_height, None);
    assert_eq!(list[0].amount, 1000);
    assert!(list[1].coin_id.same(&hash(0xa2)));
    assert_eq!(list[1].address, "xch1xvenxvenxvenxvenxvenxvenxvenxvenxvenxvenxvenxvenxveseg060w");
    assert_eq!(list[1].created_height, Some(11));
    assert_eq!(list[1].spent_height, Some(12));
    assert_eq!(list[1].amount, 7);
}

#[test]
fn coin_list_of_an_empty_wallet_is_empty() {
    let state = state_with_coins("xch", vec![]);
    assert!(coin_list(&state).unwrap().is_empty());
}

#[test]
fn coin_list_with_an_unusable_prefix_fails() {
    let state = state_with_coins("", vec![coin(0xa0, 0x11, 1000, Some(10), None)]);
    assert_eq!(coin_list(&state).unwrap_err(), Error::AddressEncoding);
    let empty = state_with_coins("", vec![]);
    assert!(coin_list(&empty).unwrap().is_empty());
}

#[test]
fn coin_data_widens_the_amount() {
    let row = coin_data(&coin(0xa0, 0x11, u64::MAX, Some(1), Some(2)), String::from("xch1abc"));
    assert!(row.coin_id.same(&hash(0xa0)));
    assert_eq!(row.address, "xch1abc");
    assert_eq!(row.created_height, Some(1));
    assert_eq!(row.spent_height, Some(2));
    assert_eq!(row.amount, u64::MAX as u128);
}

#[test]
fn did_list_shows_the_identities() {
    let mut state = state_with_coins("xch", vec![coin(0xa0, 0x22, 1, Some(10), None)]);
    change_store(&mut state, |tx| {
        tx.record_launcher_coin(LauncherCoin {
            kind: LauncherKind::Identity,
            launcher_id: hash(0x44),
            coin_id: hash(0xa0),
            owner_puzzle_hash: hash(0x22),
        });
    });
    let list = did_list(&state).unwrap();
    assert_eq!(list.len(), 1);
    assert_eq!(
        list[0].encoded_id,
        "did:chia:1g3zyg3zyg3zyg3zyg3zyg3zyg3zyg3zyg3zyg3zyg3zyg3zyg3zqm079fq"
    );
    assert!(list[0].launcher_id.same(&hash(0x44)));
    assert_eq!(list[0].address, "xch1yg3zyg3zyg3zyg3zyg3zyg3zyg3zyg3zyg3zyg3zyg3zyg3zyg3qzarh9q");
    assert!(nft_list(&state).unwrap().is_empty());
}

#[test]
fn nft_list_shows_the_token_holders() {
    let mut state = state_with_coins(
        "xch",
        vec![coin(0xa0, 0x11, 1, Some(10), None), coin(0xa1, 0x33, 1, Some(10), Some(11))],
    );
    change_store(&mut state, |tx| {
        tx.record_launcher_coin(LauncherCoin {
            kind: LauncherKind::TokenHolder,
            launcher_id: hash(0x55),
            coin_id: hash(0xa0),
            owner_puzzle_hash: hash(0x11),
        });
        tx.record_launcher_coin(LauncherCoin {
            kind: LauncherKind::TokenHolder,
            launcher_id: hash(0x66),
            coin_id: hash(0xa1),
            owner_puzzle_hash: hash(0x33),
        });
    });
    let list = nft_list(&state).unwrap();
    assert_eq!(list.len(), 1);
    assert_eq!(list[0].encoded_id, "nft1242424242424242424242424242424242424242424242424242s3pan9a");
    assert!(list[0].launcher_id.same(&hash(0x55)));
    assert_eq!(list[0].address, "xch1zyg3zyg3zyg3zyg3zyg3zyg3zyg3zyg3zyg3zyg3zyg3zyg3zygs3fazuv");
    assert!(did_list(&state).unwrap().is_empty());
}

#[test]
fn missing_record_is_a_coin_state_not_found() {
    let record = LauncherCoin {
        kind: LauncherKind::Identity,
        launcher_id: hash(0x44),
        coin_id: hash(0xa0),
        owner_puzzle_hash: hash(0x22),
    };
    assert!(found_or_error(Some(record)).unwrap().launcher_id.same(&hash(0x44)));
    assert_eq!(found_or_error(None).unwrap_err(), Error::CoinStateNotFound);
    let state = state_with_coins("xch", vec![]);
    let store = &state.wallet.as_ref().unwrap().db;
    let missing = found_or_error(store.resolve_identity(&hash(0x44)));
    assert_eq!(missing.unwrap_err(), Error::CoinStateNotFound);
}

#[test]
fn launcher_data_puts_the_parts_together() {
    let record = LauncherCoin {
        kind: LauncherKind::Identity,
        launcher_id: hash(0x44),
        coin_id: hash(0xa0),
        owner_puzzle_hash: hash(0x22),
    };
    let row = launcher_data(&record, String::from("did:chia:1abc"), String::from("xch1abc"));
    assert_eq!(row.encoded_id, "did:chia:1abc");
    assert!(row.launcher_id.same(&hash(0x44)));
    assert_eq!(row.address, "xch1abc");
}

#[test]
fn validate_address_accepts_an_address_of_the_network() {
    let state = state("xch");
    let address = String::from("xch1a0t57qn6uhe7tzjlxlhwy2qgmuxvvft8gnfzmg5detg0q9f3yc3s2apz0h");
    assert_eq!(validate_address(&state, address), Ok(true));
}

#[test]
fn validate_address_rejects_another_prefix() {
    let state = state("txch");
    let address = String::from("xch1a0t57qn6uhe7tzjlxlhwy2qgmuxvvft8gnfzmg5detg0q9f3yc3s2apz0h");
    assert_eq!(validate_address(&state, address), Ok(false));
}

#[test]
fn validate_address_rejects_what_is_no_address() {
    let state = state("xch");
    assert_eq!(validate_address(&state, String::from("hello there!")), Ok(false));
    assert_eq!(validate_address(&state, String::new()), Ok(false));
    assert_eq!(validate_address(&state, String::from("xch")), Ok(false));
    assert_eq!(
        validate_address(&state, String::from("bc1qar0srrr7xfkvy5l643lydnw9re59gtzzwf5mdq")),
        Ok(false)
    );
    let damaged = String::from("xch1a0t57qn6uhe7tzjlxlhwy2qgmuxvvft8gnfzmg5detg0q9f3yc3s2apz0q");
    assert_eq!(validate_address(&state, damaged), Ok(false));
}

#[test]
fn prefix_matches_looks_at_the_decoded_prefix() {
    let xch = String::from("xch");
    assert!(prefix_matches(Ok((hash(1), String::from("xch"))), &xch));
    assert!(!prefix_matches(Ok((hash(1), String::from("txch"))), &xch));
    assert!(!prefix_matches(Err(Bech32Error::InvalidFormat), &xch));
}

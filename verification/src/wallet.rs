//! The queries on the selected wallet: sync status, coins, identities,
//! token holders, and whether a text is an address of the network.

use vstd::prelude::*;
use chia_wallet_sdk::utils::Bech32Error;
use crate::address::{
    address_parts, address_text, decode_address, encode_address, valid_prefix,
};
use crate::app_state::AppState;
use crate::bytes::Bytes32;
use crate::error::Error;
use crate::models::{
    CoinData, CoinDataView, DidData, LauncherData, LauncherDataView, NftData, SyncInfo,
    SyncInfoView,
};
use crate::store::{
    current_launchers, law_listed_resolves, owned_coins, resolve, Coin, LauncherCoin,
    LauncherKind, StoreView,
};
use crate::sync::{snapshot, snapshot_of, SyncSnapshot};

verus! {

/// The text that `str::to_uppercase` gives for a text.
pub uninterp spec fn uppercase_text(text: Seq<char>) -> Seq<char>;

/// Calls `str::to_uppercase`. Its result depends on the text alone, so it
/// is named: the contract claims only that the call returns
/// `uppercase_text` of the text.
#[verifier::external_body]
fn uppercase(text: &str) -> (upper: String)
    ensures
        upper@ == uppercase_text(text@),
{
    text.to_uppercase()
}

/// What the owned coins look like as rows.
pub open spec fn data_views(rows: Seq<CoinData>) -> Seq<CoinDataView> {
    Seq::new(rows.len(), |i: int| rows[i]@)
}

/// What the launcher rows say.
pub open spec fn launcher_views(rows: Seq<LauncherData>) -> Seq<LauncherDataView> {
    Seq::new(rows.len(), |i: int| rows[i]@)
}

/// The address of an encoding that went through; `AddressEncoding` for
/// one that did not.
pub fn address_or_error(encoded: Result<String, Bech32Error>) -> (address: Result<String, Error>)
    ensures
        match encoded {
            Ok(text) => address matches Ok(same) && same == text,
            Err(_) => address matches Err(error) && error == Error::AddressEncoding,
        },
{
    match encoded {
        Ok(text) => Ok(text),
        Err(_) => Err(Error::AddressEncoding),
    }
}

/// The address of `hash` under `prefix`.
fn address_of(hash: &Bytes32, prefix: &str) -> (address: Result<String, Error>)
    ensures
        match address_text(hash@, prefix@) {
            Some(text) => address matches Ok(found) && found@ == text,
            None => address matches Err(error) && error == Error::AddressEncoding,
        },
        address is Ok <==> valid_prefix(prefix@),
{
    address_or_error(encode_address(hash, prefix))
}

/// The sync status made of a snapshot, the address and the ticker.
pub fn sync_info_of(snapshot: SyncSnapshot, address: String, ticker: String) -> (info: SyncInfo)
    ensures
        info.address == address,
        info.ticker == ticker,
        info.balance == snapshot.balance,
        info.total_coins == snapshot.total_coin_count,
        info.synced_coins == snapshot.synced_coin_count,
{
    SyncInfo {
        address,
        balance: snapshot.balance,
        ticker,
        total_coins: snapshot.total_coin_count,
        synced_coins: snapshot.synced_coin_count,
    }
}

/// What `sync_info` answers on a state.
pub open spec fn sync_info_view(state: &AppState) -> Result<SyncInfoView, Error> {
    match state.wallet {
        None => Err(Error::NoActiveWallet),
        Some(wallet) => match snapshot_of(wallet.db@) {
            Err(error) => Err(error),
            Ok(snapshot) => match address_text(
                snapshot.next_receive_puzzle_hash@,
                state.prefix@,
            ) {
                None => Err(Error::AddressEncoding),
                Some(address) => Ok(
                    SyncInfoView {
                        address,
                        balance: wallet.db@.balance(),
                        ticker: uppercase_text(state.prefix@),
                        total_coins: wallet.db@.total_coin_count(),
                        synced_coins: wallet.db@.synced_coin_count(),
                    },
                ),
            },
        },
    }
}

/// The sync status of the selected wallet: the next receive address, the
/// balance, the ticker, and how many coins are known and synced.
pub fn sync_info(state: &AppState) -> (info: Result<SyncInfo, Error>)
    requires
        state.wf(),
    ensures
        match sync_info_view(state) {
            Ok(view) => info matches Ok(found) && found@ == view,
            Err(error) => info matches Err(failed) && failed == error,
        },
        info is Ok <==> (state.wallet matches Some(wallet)
            && wallet.db@.derivations.current_receive_index(false) is Some && valid_prefix(
            state.prefix@,
        )),
{
    let wallet = match state.active_wallet() {
        Ok(wallet) => wallet,
        Err(error) => {
            return Err(error);
        },
    };
    let taken = match snapshot(&wallet.db) {
        Ok(taken) => taken,
        Err(error) => {
            return Err(error);
        },
    };
    let address = match address_of(&taken.next_receive_puzzle_hash, state.prefix.as_str()) {
        Ok(address) => address,
        Err(error) => {
            return Err(error);
        },
    };
    let ticker = uppercase(state.prefix.as_str());
    Ok(sync_info_of(taken, address, ticker))
}

/// The row of a coin, given the address of its owner.
pub fn coin_data(coin: &Coin, address: String) -> (row: CoinData)
    ensures
        row.coin_id == coin.coin_id,
        row.address == address,
        row.created_height == coin.created_height,
        row.spent_height == coin.spent_height,
        row.amount == coin.amount,
{
    CoinData {
        coin_id: coin.coin_id,
        address,
        created_height: coin.created_height,
        spent_height: coin.spent_height,
        amount: coin.amount as u128,
    }
}

/// The rows of `coins` under `prefix`, or `AddressEncoding` if the owner
/// of one of them cannot be written as an address.
pub open spec fn coin_rows(coins: Seq<Coin>, prefix: Seq<char>) -> Result<Seq<CoinDataView>, Error>
    decreases coins.len(),
{
    if coins.len() == 0 {
        Ok(Seq::<CoinDataView>::empty())
    } else {
        match coin_rows(coins.drop_last(), prefix) {
            Err(error) => Err(error),
            Ok(rows) => match address_text(coins.last().owner_puzzle_hash@, prefix) {
                None => Err(Error::AddressEncoding),
                Some(address) => Ok(
                    rows.push(
                        CoinDataView {
                            coin_id: coins.last().coin_id,
                            address,
                            created_height: coins.last().created_height,
                            spent_height: coins.last().spent_height,
                            amount: coins.last().amount as nat,
                        },
                    ),
                ),
            },
        }
    }
}

/// An error on a prefix of the coins is the error of the whole.
pub proof fn lemma_coin_rows_error(coins: Seq<Coin>, prefix: Seq<char>, n: int)
    requires
        0 <= n <= coins.len(),
        coin_rows(coins.take(n), prefix) is Err,
    ensures
        coin_rows(coins, prefix) == coin_rows(coins.take(n), prefix),
    decreases coins.len() - n,
{
    if n < coins.len() {
        assert(coins.take(n + 1).drop_last() == coins.take(n));
        lemma_coin_rows_error(coins, prefix, n + 1);
    } else {
        assert(coins.take(n) == coins);
    }
}

/// What `coin_list` answers on a state.
pub open spec fn coin_list_view(state: &AppState) -> Result<Seq<CoinDataView>, Error> {
    match state.wallet {
        None => Err(Error::NoActiveWallet),
        Some(wallet) => coin_rows(
            owned_coins(wallet.db@.coins, wallet.db@.derivations),
            state.prefix@,
        ),
    }
}

/// The coins of the selected wallet, each with the address of its owner.
pub fn coin_list(state: &AppState) -> (list: Result<Vec<CoinData>, Error>)
    requires
        state.wf(),
    ensures
        match coin_list_view(state) {
            Ok(rows) => list matches Ok(found) && data_views(found@) == rows,
            Err(error) => list matches Err(failed) && failed == error,
        },
        list is Ok <==> (state.wallet matches Some(wallet) && (owned_coins(
            wallet.db@.coins,
            wallet.db@.derivations,
        ).len() == 0 || valid_prefix(state.prefix@))),
{
    let wallet = match state.active_wallet() {
        Ok(wallet) => wallet,
        Err(error) => {
            return Err(error);
        },
    };
    let coins = wallet.db.owned_coins();
    let mut rows: Vec<CoinData> = Vec::new();
    let mut i: usize = 0;
    assert(coins@.take(0).len() == 0);
    assert(data_views(rows@) =~= Seq::<CoinDataView>::empty());
    while i < coins.len()
        invariant
            i <= coins.len(),
            state.wallet == Some(*wallet),
            coins@ == owned_coins(wallet.db@.coins, wallet.db@.derivations),
            i > 0 ==> valid_prefix(state.prefix@),
            coin_rows(coins@.take(i as int), state.prefix@) == Ok::<Seq<CoinDataView>, Error>(
                data_views(rows@),
            ),
        decreases coins.len() - i,
    {
        assert(coins@.take(i + 1).drop_last() == coins@.take(i as int));
        let ghost before = data_views(rows@);
        match address_of(&coins[i].owner_puzzle_hash, state.prefix.as_str()) {
            Ok(address) => {
                rows.push(coin_data(&coins[i], address));
                assert(data_views(rows@) == before.push(rows@.last()@));
            },
            Err(error) => {
                proof {
                    lemma_coin_rows_error(coins@, state.prefix@, i + 1);
                }
                return Err(error);
            },
        }
        i += 1;
    }
    assert(coins@.take(coins@.len() as int) == coins@);
    Ok(rows)
}

/// The row of a launcher's coin, given its launcher and its owner as text.
pub fn launcher_data(record: &LauncherCoin, encoded_id: String, address: String) -> (row:
    LauncherData)
    ensures
        row.encoded_id == encoded_id,
        row.launcher_id == record.launcher_id,
        row.address == address,
{
    LauncherData { encoded_id, launcher_id: record.launcher_id, address }
}

/// The record that a lookup found; `CoinStateNotFound` where it found
/// none. This is for a caller that needs the record to be there.
pub fn found_or_error(resolved: Option<LauncherCoin>) -> (record: Result<LauncherCoin, Error>)
    ensures
        record == match resolved {
            Some(found) => Ok::<LauncherCoin, Error>(found),
            None => Err(Error::CoinStateNotFound),
        },
{
    match resolved {
        Some(found) => Ok(found),
        None => Err(Error::CoinStateNotFound),
    }
}

/// The row of one listed record: the record has to resolve, and its
/// launcher and its owner have to be writable as addresses.
pub open spec fn launcher_row(
    store: StoreView,
    kind: LauncherKind,
    launcher_id: Bytes32,
    id_prefix: Seq<char>,
    prefix: Seq<char>,
) -> Result<LauncherDataView, Error> {
    match resolve(store.launchers, kind, store.coins, launcher_id) {
        None => Err(Error::CoinStateNotFound),
        Some(record) => match address_text(record.launcher_id@, id_prefix) {
            None => Err(Error::AddressEncoding),
            Some(encoded_id) => match address_text(record.owner_puzzle_hash@, prefix) {
                None => Err(Error::AddressEncoding),
                Some(address) => Ok(
                    LauncherDataView { encoded_id, launcher_id: record.launcher_id, address },
                ),
            },
        },
    }
}

/// The rows of the listed records, in order, or the first error.
pub open spec fn launcher_rows(
    store: StoreView,
    kind: LauncherKind,
    listed: Seq<LauncherCoin>,
    id_prefix: Seq<char>,
    prefix: Seq<char>,
) -> Result<Seq<LauncherDataView>, Error>
    decreases listed.len(),
{
    if listed.len() == 0 {
        Ok(Seq::<LauncherDataView>::empty())
    } else {
        match launcher_rows(store, kind, listed.drop_last(), id_prefix, prefix) {
            Err(error) => Err(error),
            Ok(rows) => match launcher_row(
                store,
                kind,
                listed.last().launcher_id,
                id_prefix,
                prefix,
            ) {
                Err(error) => Err(error),
                Ok(row) => Ok(rows.push(row)),
            },
        }
    }
}

/// An error on a prefix of the records is the error of the whole.
pub proof fn lemma_launcher_rows_error(
    store: StoreView,
    kind: LauncherKind,
    listed: Seq<LauncherCoin>,
    id_prefix: Seq<char>,
    prefix: Seq<char>,
    n: int,
)
    requires
        0 <= n <= listed.len(),
        launcher_rows(store, kind, listed.take(n), id_prefix, prefix) is Err,
    ensures
        launcher_rows(store, kind, listed, id_prefix, prefix) == launcher_rows(
            store,
            kind,
            listed.take(n),
            id_prefix,
            prefix,
        ),
    decreases listed.len() - n,
{
    if n < listed.len() {
        assert(listed.take(n + 1).drop_last() == listed.take(n));
        lemma_launcher_rows_error(store, kind, listed, id_prefix, prefix, n + 1);
    } else {
        assert(listed.take(n) == listed);
    }
}

/// What `did_list` and `nft_list` answer on a state.
pub open spec fn launcher_list_view(
    state: &AppState,
    kind: LauncherKind,
    id_prefix: Seq<char>,
) -> Result<Seq<LauncherDataView>, Error> {
    match state.wallet {
        None => Err(Error::NoActiveWallet),
        Some(wallet) => launcher_rows(
            wallet.db@,
            kind,
            current_launchers(wallet.db@.launchers, kind, wallet.db@.coins),
            id_prefix,
            state.prefix@,
        ),
    }
}

/// The rows of the current coins of one kind.
fn launcher_list(state: &AppState, kind: LauncherKind, id_prefix: &str) -> (list: Result<
    Vec<LauncherData>,
    Error,
>)
    requires
        state.wf(),
    ensures
        match launcher_list_view(state, kind, id_prefix@) {
            Ok(rows) => list matches Ok(found) && launcher_views(found@) == rows,
            Err(error) => list matches Err(failed) && failed == error,
        },
        list is Ok <==> (state.wallet matches Some(wallet) && (current_launchers(
            wallet.db@.launchers,
            kind,
            wallet.db@.coins,
        ).len() == 0 || (valid_prefix(id_prefix@) && valid_prefix(state.prefix@)))),
{
    let wallet = match state.active_wallet() {
        Ok(wallet) => wallet,
        Err(error) => {
            return Err(error);
        },
    };
    let listed = match kind {
        LauncherKind::Identity => wallet.db.identity_list(),
        LauncherKind::TokenHolder => wallet.db.token_holder_list(),
    };
    let mut rows: Vec<LauncherData> = Vec::new();
    let mut i: usize = 0;
    assert(listed@.take(0).len() == 0);
    assert(launcher_views(rows@) =~= Seq::<LauncherDataView>::empty());
    while i < listed.len()
        invariant
            i <= listed.len(),
            state.wf(),
            state.wallet == Some(*wallet),
            listed@ == current_launchers(wallet.db@.launchers, kind, wallet.db@.coins),
            i > 0 ==> valid_prefix(id_prefix@) && valid_prefix(state.prefix@),
            launcher_rows(wallet.db@, kind, listed@.take(i as int), id_prefix@, state.prefix@)
                == Ok::<Seq<LauncherDataView>, Error>(launcher_views(rows@)),
        decreases listed.len() - i,
    {
        assert(listed@.take(i + 1).drop_last() == listed@.take(i as int));
        let ghost before = launcher_views(rows@);
        let resolved = match kind {
            LauncherKind::Identity => wallet.db.resolve_identity(&listed[i].launcher_id),
            LauncherKind::TokenHolder => wallet.db.resolve_token_holder(&listed[i].launcher_id),
        };
        proof {
            law_listed_resolves(wallet.db@, kind, i as int);
        }
        let record = match found_or_error(resolved) {
            Ok(record) => record,
            Err(error) => {
                proof {
                    lemma_launcher_rows_error(
                        wallet.db@,
                        kind,
                        listed@,
                        id_prefix@,
                        state.prefix@,
                        i + 1,
                    );
                }
                return Err(error);
            },
        };
        let encoded_id = match address_of(&record.launcher_id, id_prefix) {
            Ok(text) => text,
            Err(error) => {
                proof {
                    lemma_launcher_rows_error(
                        wallet.db@,
                        kind,
                        listed@,
                        id_prefix@,
                        state.prefix@,
                        i + 1,
                    );
                }
                return Err(error);
            },
        };
        let address = match address_of(&record.owner_puzzle_hash, state.prefix.as_str()) {
            Ok(text) => text,
            Err(error) => {
                proof {
                    lemma_launcher_rows_error(
                        wallet.db@,
                        kind,
                        listed@,
                        id_prefix@,
                        state.prefix@,
                        i + 1,
                    );
                }
                return Err(error);
            },
        };
        rows.push(launcher_data(&record, encoded_id, address));
        assert(launcher_views(rows@) == before.push(rows@.last()@));
        i += 1;
    }
    assert(listed@.take(listed@.len() as int) == listed@);
    Ok(rows)
}

/// The identities of the selected wallet: for each current identity coin
/// its launcher, as bytes and under the prefix `did:chia:`, and the
/// address of its owner. Each listed identity is looked up again, and one
/// that were not found would give `CoinStateNotFound`; as the listing and
/// the lookup read one state, every listed identity is found.
pub fn did_list(state: &AppState) -> (list: Result<Vec<DidData>, Error>)
    requires
        state.wf(),
    ensures
        match launcher_list_view(state, LauncherKind::Identity, "did:chia:"@) {
            Ok(rows) => list matches Ok(found) && launcher_views(found@) == rows,
            Err(error) => list matches Err(failed) && failed == error,
        },
        list is Ok <==> (state.wallet matches Some(wallet) && (current_launchers(
            wallet.db@.launchers,
            LauncherKind::Identity,
            wallet.db@.coins,
        ).len() == 0 || valid_prefix(state.prefix@))),
{
    proof {
        reveal_strlit("did:chia:");
        assert(!crate::address::has_upper("did:chia:"@));
    }
    launcher_list(state, LauncherKind::Identity, "did:chia:")
}

/// The token holders of the selected wallet: for each current token
/// holder coin its launcher, as bytes and under the prefix `nft`, and the
/// address of its owner. Each listed token holder is looked up again, and
/// one that were not found would give `CoinStateNotFound`; as the listing
/// and the lookup read one state, every listed token holder is found.
pub fn nft_list(state: &AppState) -> (list: Result<Vec<NftData>, Error>)
    requires
        state.wf(),
    ensures
        match launcher_list_view(state, LauncherKind::TokenHolder, "nft"@) {
            Ok(rows) => list matches Ok(found) && launcher_views(found@) == rows,
            Err(error) => list matches Err(failed) && failed == error,
        },
        list is Ok <==> (state.wallet matches Some(wallet) && (current_launchers(
            wallet.db@.launchers,
            LauncherKind::TokenHolder,
            wallet.db@.coins,
        ).len() == 0 || valid_prefix(state.prefix@))),
{
    proof {
        reveal_strlit("nft");
        assert(!crate::address::has_upper("nft"@));
    }
    launcher_list(state, LauncherKind::TokenHolder, "nft")
}

/// Whether a decoded address is one under `prefix`: the text was read as
/// an address, and the prefix read from it is `prefix`.
pub fn prefix_matches(decoded: Result<(Bytes32, String), Bech32Error>, prefix: &String) -> (ok:
    bool)
    ensures
        ok == (decoded matches Ok(parts) && parts.1@ == prefix@),
{
    match decoded {
        Ok(parts) => parts.1 == *prefix,
        Err(_) => false,
    }
}

/// Whether `address` is an address of the configured network: it can be
/// read as an address, and its prefix is the network's.
pub fn validate_address(state: &AppState, address: String) -> (valid: Result<bool, Error>)
    ensures
        valid matches Ok(ok) && ok == (address_parts(address@) matches Some(parts) && parts.1
            == state.prefix@),
{
    Ok(prefix_matches(decode_address(address.as_str()), &state.prefix))
}

} // verus!

//! The coin state store: every known coin with its creation and spend
//! heights, the derivation records, the coins that stand for identities and
//! token holders, and the height up to which all of this is synced.
//! Changes are made in a transaction and seen only once it is committed.
//! A transaction takes the store while it lasts, so there is never more
//! than one.

use vstd::prelude::*;
use crate::bytes::Bytes32;
use crate::derivation::{
    next_record, AddressDerivation, DerivationRecord, DerivationView, KeyMaterial,
};
use crate::error::Error;

verus! {

/// A coin and the heights at which it was created and spent.
#[derive(Debug, Clone, Copy)]
pub struct Coin {
    pub coin_id: Bytes32,
    pub owner_puzzle_hash: Bytes32,
    pub amount: u64,
    pub created_height: Option<u32>,
    pub spent_height: Option<u32>,
}

impl Coin {
    /// A coin that is spent was created, and not after it was spent.
    pub open spec fn heights_ok(self) -> bool {
        self.spent_height matches Some(spent) ==> (self.created_height matches Some(created)
            && created <= spent)
    }

    /// Whether a coin that is spent was created, and not after it was spent.
    pub fn has_valid_heights(&self) -> (ok: bool)
        ensures
            ok == self.heights_ok(),
    {
        match self.spent_height {
            Some(spent) => match self.created_height {
                Some(created) => created <= spent,
                None => false,
            },
            None => true,
        }
    }

    /// Replacing the heights of `self` by those of `update` would clear a
    /// height that is set.
    pub open spec fn cleared_by(self, update: Coin) -> bool {
        (self.created_height is Some && update.created_height is None) || (self.spent_height
            is Some && update.spent_height is None)
    }

    /// This coin with the heights of `update`.
    pub open spec fn with_heights_of(self, update: Coin) -> Coin {
        Coin {
            created_height: update.created_height,
            spent_height: update.spent_height,
            ..self
        }
    }

    /// Whether the coin was created at or below `height`.
    pub open spec fn confirmed_by(self, height: u32) -> bool {
        self.created_height matches Some(created) && created <= height
    }
}

/// What a coin with a launcher stands for.
#[derive(Debug, Clone, Copy, PartialEq, Eq, Structural)]
pub enum LauncherKind {
    Identity,
    TokenHolder,
}

/// The latest coin in the lineage that a launcher started, and the puzzle
/// hash that owns it.
#[derive(Debug, Clone, Copy)]
pub struct LauncherCoin {
    pub kind: LauncherKind,
    pub launcher_id: Bytes32,
    pub coin_id: Bytes32,
    pub owner_puzzle_hash: Bytes32,
}

/// The current coin of an identity.
pub type IdentityCoin = LauncherCoin;

/// The current coin of a token holder.
pub type TokenHolderCoin = LauncherCoin;

/// Where in `coins` the coin with id `coin_id` stands.
pub open spec fn coin_position(coins: Seq<Coin>, coin_id: Bytes32) -> Option<int> {
    if exists|i: int| 0 <= i < coins.len() && coins[i].coin_id == coin_id {
        Some(choose|i: int| 0 <= i < coins.len() && coins[i].coin_id == coin_id)
    } else {
        None
    }
}

/// No two coins share an id.
pub open spec fn distinct_coins(coins: Seq<Coin>) -> bool {
    forall|i: int, j: int|
        0 <= i < j < coins.len() ==> (#[trigger] coins[i]).coin_id != (#[trigger] coins[j]).coin_id
}

/// Every coin that is spent was created, and not after it was spent.
pub open spec fn all_heights_ok(coins: Seq<Coin>) -> bool {
    forall|i: int| 0 <= i < coins.len() ==> (#[trigger] coins[i]).heights_ok()
}

/// Where in `launchers` the record of `launcher_id` stands.
pub open spec fn launcher_position(launchers: Seq<LauncherCoin>, launcher_id: Bytes32) -> Option<
    int,
> {
    if exists|i: int| 0 <= i < launchers.len() && launchers[i].launcher_id == launcher_id {
        Some(choose|i: int| 0 <= i < launchers.len() && launchers[i].launcher_id == launcher_id)
    } else {
        None
    }
}

/// No two records share a launcher.
pub open spec fn distinct_launchers(launchers: Seq<LauncherCoin>) -> bool {
    forall|i: int, j: int|
        0 <= i < j < launchers.len() ==> (#[trigger] launchers[i]).launcher_id != (
        #[trigger] launchers[j]).launcher_id
}

/// Where ids are distinct, the place that holds `coin_id` is its position.
pub proof fn lemma_coin_position(coins: Seq<Coin>, coin_id: Bytes32, i: int)
    requires
        distinct_coins(coins),
        0 <= i < coins.len(),
        coins[i].coin_id == coin_id,
    ensures
        coin_position(coins, coin_id) == Some(i),
{
    let k = choose|k: int| 0 <= k < coins.len() && coins[k].coin_id == coin_id;
    if k < i {
        assert(coins[k].coin_id != coins[i].coin_id);
    } else if i < k {
        assert(coins[i].coin_id != coins[k].coin_id);
    }
}

/// Where launchers are distinct, the place that holds `launcher_id` is its
/// position.
pub proof fn lemma_launcher_position(launchers: Seq<LauncherCoin>, launcher_id: Bytes32, i: int)
    requires
        distinct_launchers(launchers),
        0 <= i < launchers.len(),
        launchers[i].launcher_id == launcher_id,
    ensures
        launcher_position(launchers, launcher_id) == Some(i),
{
    let k = choose|k: int| 0 <= k < launchers.len() && launchers[k].launcher_id == launcher_id;
    if k < i {
        assert(launchers[k].launcher_id != launchers[i].launcher_id);
    } else if i < k {
        assert(launchers[i].launcher_id != launchers[k].launcher_id);
    }
}

/// The coins after `coin` was upserted, or the error that refuses it: a
/// coin spent before it was created, or spent and never created, is
/// refused, and so is one that would clear a height that the stored coin
/// has. A new coin is added last; a known one takes the new heights.
pub open spec fn upsert(coins: Seq<Coin>, coin: Coin) -> Result<Seq<Coin>, Error> {
    if !coin.heights_ok() {
        Err(Error::InvalidHeightTransition)
    } else {
        match coin_position(coins, coin.coin_id) {
            None => Ok(coins.push(coin)),
            Some(i) => if coins[i].cleared_by(coin) {
                Err(Error::InvalidHeightTransition)
            } else {
                Ok(coins.update(i, coins[i].with_heights_of(coin)))
            },
        }
    }
}

/// Whether the coin with id `coin_id` is known and not spent.
pub open spec fn unspent(coins: Seq<Coin>, coin_id: Bytes32) -> bool {
    coin_position(coins, coin_id) matches Some(i) && coins[i].spent_height is None
}

/// The sum of the amounts of the unspent coins whose owner is a puzzle
/// hash of the wallet.
pub open spec fn balance_of(coins: Seq<Coin>, derivations: DerivationView) -> nat
    decreases coins.len(),
{
    if coins.len() == 0 {
        0
    } else {
        balance_of(coins.drop_last(), derivations) + contribution(coins.last(), derivations)
    }
}

/// What one coin adds to the balance.
pub open spec fn contribution(coin: Coin, derivations: DerivationView) -> nat {
    if coin.spent_height is None && derivations.owns(coin.owner_puzzle_hash) {
        coin.amount as nat
    } else {
        0
    }
}

/// How many coins were created at or below `height`.
pub open spec fn confirmed_count(coins: Seq<Coin>, height: u32) -> nat
    decreases coins.len(),
{
    if coins.len() == 0 {
        0
    } else {
        confirmed_count(coins.drop_last(), height) + if coins.last().confirmed_by(height) {
            1nat
        } else {
            0nat
        }
    }
}

/// The coins whose owner is a puzzle hash of the wallet, in stored order.
pub open spec fn owned_coins(coins: Seq<Coin>, derivations: DerivationView) -> Seq<Coin>
    decreases coins.len(),
{
    if coins.len() == 0 {
        Seq::<Coin>::empty()
    } else if derivations.owns(coins.last().owner_puzzle_hash) {
        owned_coins(coins.drop_last(), derivations).push(coins.last())
    } else {
        owned_coins(coins.drop_last(), derivations)
    }
}

/// Whether `record` is of kind `kind` and its coin is known and unspent.
pub open spec fn is_current(record: LauncherCoin, kind: LauncherKind, coins: Seq<Coin>) -> bool {
    record.kind == kind && unspent(coins, record.coin_id)
}

/// The records of kind `kind` whose coin is known and unspent, in stored
/// order.
pub open spec fn current_launchers(
    launchers: Seq<LauncherCoin>,
    kind: LauncherKind,
    coins: Seq<Coin>,
) -> Seq<LauncherCoin>
    decreases launchers.len(),
{
    if launchers.len() == 0 {
        Seq::<LauncherCoin>::empty()
    } else if is_current(launchers.last(), kind, coins) {
        current_launchers(launchers.drop_last(), kind, coins).push(launchers.last())
    } else {
        current_launchers(launchers.drop_last(), kind, coins)
    }
}

/// The record of `launcher_id`, if it is of kind `kind` and its coin is
/// known and unspent.
pub open spec fn resolve(
    launchers: Seq<LauncherCoin>,
    kind: LauncherKind,
    coins: Seq<Coin>,
    launcher_id: Bytes32,
) -> Option<LauncherCoin> {
    match launcher_position(launchers, launcher_id) {
        Some(i) => if is_current(launchers[i], kind, coins) {
            Some(launchers[i])
        } else {
            None
        },
        None => None,
    }
}

/// The records after `record` was entered: it takes the place of the
/// record of its launcher, or comes last if the launcher is new.
pub open spec fn supersede(launchers: Seq<LauncherCoin>, record: LauncherCoin) -> Seq<
    LauncherCoin,
> {
    match launcher_position(launchers, record.launcher_id) {
        Some(i) => launchers.update(i, record),
        None => launchers.push(record),
    }
}

/// What the store holds.
pub struct StoreView {
    pub coins: Seq<Coin>,
    pub derivations: DerivationView,
    pub launchers: Seq<LauncherCoin>,
    pub synced_height: u32,
}

impl StoreView {
    /// The invariant: one record per coin id and per launcher, heights in
    /// order on every coin, and dense derivation chains.
    pub open spec fn wf(self) -> bool {
        &&& distinct_coins(self.coins)
        &&& all_heights_ok(self.coins)
        &&& distinct_launchers(self.launchers)
        &&& self.derivations.wf()
    }

    /// The balance of the wallet.
    pub open spec fn balance(self) -> nat {
        balance_of(self.coins, self.derivations)
    }

    /// How many coins are known.
    pub open spec fn total_coin_count(self) -> nat {
        self.coins.len()
    }

    /// How many coins are confirmed up to the synced height.
    pub open spec fn synced_coin_count(self) -> nat {
        confirmed_count(self.coins, self.synced_height)
    }

    /// The store with other coins.
    pub open spec fn with_coins(self, coins: Seq<Coin>) -> StoreView {
        StoreView { coins, ..self }
    }

    /// The store with other derivation records.
    pub open spec fn with_derivations(self, derivations: DerivationView) -> StoreView {
        StoreView { derivations, ..self }
    }

    /// The store after `record` was entered.
    pub open spec fn with_launcher(self, record: LauncherCoin) -> StoreView {
        StoreView { launchers: supersede(self.launchers, record), ..self }
    }

    /// The store synced up to `height`, or as far as it was if that is
    /// further.
    pub open spec fn advanced_to(self, height: u32) -> StoreView {
        StoreView {
            synced_height: if height > self.synced_height {
                height
            } else {
                self.synced_height
            },
            ..self
        }
    }

    /// The store with its synced height back at genesis; the records stay.
    pub open spec fn reset(self) -> StoreView {
        StoreView { synced_height: 0, ..self }
    }
}

/// A copy of the coins.
fn copy_coins(coins: &Vec<Coin>) -> (copy: Vec<Coin>)
    ensures
        copy@ == coins@,
{
    let mut copy: Vec<Coin> = Vec::new();
    let mut i: usize = 0;
    while i < coins.len()
        invariant
            i <= coins.len(),
            copy@ == coins@.take(i as int),
        decreases coins.len() - i,
    {
        copy.push(coins[i]);
        assert(coins@.take(i + 1) == coins@.take(i as int).push(coins@[i as int]));
        i += 1;
    }
    assert(coins@.take(coins@.len() as int) == coins@);
    copy
}

/// A copy of the launcher records.
fn copy_launchers(launchers: &Vec<LauncherCoin>) -> (copy: Vec<LauncherCoin>)
    ensures
        copy@ == launchers@,
{
    let mut copy: Vec<LauncherCoin> = Vec::new();
    let mut i: usize = 0;
    while i < launchers.len()
        invariant
            i <= launchers.len(),
            copy@ == launchers@.take(i as int),
        decreases launchers.len() - i,
    {
        copy.push(launchers[i]);
        assert(launchers@.take(i + 1) == launchers@.take(i as int).push(launchers@[i as int]));
        i += 1;
    }
    assert(launchers@.take(launchers@.len() as int) == launchers@);
    copy
}

/// The committed state of the wallet's coins.
pub struct CoinStateStore {
    coins: Vec<Coin>,
    derivations: AddressDerivation,
    launchers: Vec<LauncherCoin>,
    synced_height: u32,
}

impl View for CoinStateStore {
    type V = StoreView;

    closed spec fn view(&self) -> StoreView {
        StoreView {
            coins: self.coins@,
            derivations: self.derivations@,
            launchers: self.launchers@,
            synced_height: self.synced_height,
        }
    }
}

impl CoinStateStore {
    /// The store's invariant.
    pub open spec fn wf(&self) -> bool {
        self@.wf()
    }

    /// The store at genesis: no coins, no records, synced height 0.
    pub fn new() -> (store: CoinStateStore)
        ensures
            store.wf(),
            store@.coins == Seq::<Coin>::empty(),
            store@.launchers == Seq::<LauncherCoin>::empty(),
            store@.derivations.unhardened == Seq::<DerivationRecord>::empty(),
            store@.derivations.hardened == Seq::<DerivationRecord>::empty(),
            store@.synced_height == 0,
    {
        CoinStateStore {
            coins: Vec::new(),
            derivations: AddressDerivation::new(),
            launchers: Vec::new(),
            synced_height: 0,
        }
    }

    /// The index of the coin with id `coin_id`.
    fn find_coin(&self, coin_id: &Bytes32) -> (found: Option<usize>)
        requires
            self.wf(),
        ensures
            found matches Some(i) ==> coin_position(self@.coins, *coin_id) == Some(i as int) && i
                < self@.coins.len() && self@.coins[i as int].coin_id == *coin_id,
            found is None ==> coin_position(self@.coins, *coin_id) is None,
    {
        let mut i: usize = 0;
        while i < self.coins.len()
            invariant
                self.wf(),
                i <= self.coins.len(),
                forall|j: int| 0 <= j < i ==> self.coins@[j].coin_id != *coin_id,
            decreases self.coins.len() - i,
        {
            if self.coins[i].coin_id.same(coin_id) {
                proof {
                    lemma_coin_position(self@.coins, *coin_id, i as int);
                }
                return Some(i);
            }
            i += 1;
        }
        None
    }

    /// The index of the record of `launcher_id`.
    fn find_launcher(&self, launcher_id: &Bytes32) -> (found: Option<usize>)
        requires
            self.wf(),
        ensures
            found matches Some(i) ==> launcher_position(self@.launchers, *launcher_id) == Some(
                i as int,
            ) && i < self@.launchers.len() && self@.launchers[i as int].launcher_id
                == *launcher_id,
            found is None ==> launcher_position(self@.launchers, *launcher_id) is None,
    {
        let mut i: usize = 0;
        while i < self.launchers.len()
            invariant
                self.wf(),
                i <= self.launchers.len(),
                forall|j: int| 0 <= j < i ==> self.launchers@[j].launcher_id != *launcher_id,
            decreases self.launchers.len() - i,
        {
            if self.launchers[i].launcher_id.same(launcher_id) {
                proof {
                    lemma_launcher_position(self@.launchers, *launcher_id, i as int);
                }
                return Some(i);
            }
            i += 1;
        }
        None
    }

    /// The coin with id `coin_id`, if it is known.
    pub fn coin(&self, coin_id: &Bytes32) -> (coin: Option<Coin>)
        requires
            self.wf(),
        ensures
            coin == match coin_position(self@.coins, *coin_id) {
                Some(i) => Some(self@.coins[i]),
                None => None,
            },
    {
        match self.find_coin(coin_id) {
            Some(i) => Some(self.coins[i]),
            None => None,
        }
    }

    /// Whether the coin with id `coin_id` is known and not spent.
    fn is_unspent(&self, coin_id: &Bytes32) -> (open: bool)
        requires
            self.wf(),
        ensures
            open == unspent(self@.coins, *coin_id),
    {
        match self.find_coin(coin_id) {
            Some(i) => self.coins[i].spent_height.is_none(),
            None => false,
        }
    }

    /// The height up to which the store is synced.
    pub fn synced_height(&self) -> (height: u32)
        ensures
            height == self@.synced_height,
    {
        self.synced_height
    }

    /// The derivation records.
    pub fn derivations(&self) -> (derivations: &AddressDerivation)
        ensures
            derivations@ == self@.derivations,
    {
        &self.derivations
    }

    /// The sum of the amounts of the unspent coins owned by the wallet's
    /// puzzle hashes.
    pub fn balance(&self) -> (balance: u128)
        requires
            self.wf(),
        ensures
            balance == self@.balance(),
    {
        let mut balance: u128 = 0;
        let mut i: usize = 0;
        while i < self.coins.len()
            invariant
                self.wf(),
                i <= self.coins.len(),
                balance == balance_of(self.coins@.take(i as int), self.derivations@),
                balance <= i * u64::MAX,
            decreases self.coins.len() - i,
        {
            let coin = self.coins[i];
            assert(self.coins@.take(i + 1).drop_last() == self.coins@.take(i as int));
            if coin.spent_height.is_none() && self.derivations.owns(&coin.owner_puzzle_hash) {
                balance = balance + coin.amount as u128;
            }
            i += 1;
        }
        assert(self.coins@.take(self.coins@.len() as int) == self.coins@);
        balance
    }

    /// How many coins are known.
    pub fn total_coin_count(&self) -> (count: usize)
        ensures
            count == self@.total_coin_count(),
    {
        self.coins.len()
    }

    /// How many coins are confirmed up to the synced height.
    pub fn synced_coin_count(&self) -> (count: usize)
        ensures
            count == self@.synced_coin_count(),
    {
        let mut count: usize = 0;
        let mut i: usize = 0;
        while i < self.coins.len()
            invariant
                i <= self.coins.len(),
                count <= i,
                count == confirmed_count(self.coins@.take(i as int), self.synced_height),
            decreases self.coins.len() - i,
        {
            assert(self.coins@.take(i + 1).drop_last() == self.coins@.take(i as int));
            let confirmed = match self.coins[i].created_height {
                Some(created) => created <= self.synced_height,
                None => false,
            };
            if confirmed {
                count += 1;
            }
            i += 1;
        }
        assert(self.coins@.take(self.coins@.len() as int) == self.coins@);
        count
    }

    /// The coins owned by the wallet's puzzle hashes, in stored order.
    pub fn owned_coins(&self) -> (owned: Vec<Coin>)
        requires
            self.wf(),
        ensures
            owned@ == owned_coins(self@.coins, self@.derivations),
    {
        let mut owned: Vec<Coin> = Vec::new();
        let mut i: usize = 0;
        while i < self.coins.len()
            invariant
                self.wf(),
                i <= self.coins.len(),
                owned@ == owned_coins(self.coins@.take(i as int), self.derivations@),
            decreases self.coins.len() - i,
        {
            assert(self.coins@.take(i + 1).drop_last() == self.coins@.take(i as int));
            let coin = self.coins[i];
            if self.derivations.owns(&coin.owner_puzzle_hash) {
                owned.push(coin);
            }
            i += 1;
        }
        assert(self.coins@.take(self.coins@.len() as int) == self.coins@);
        owned
    }

    /// The records of kind `kind` whose coin is known and unspent.
    fn current(&self, kind: LauncherKind) -> (records: Vec<LauncherCoin>)
        requires
            self.wf(),
        ensures
            records@ == current_launchers(self@.launchers, kind, self@.coins),
    {
        let mut records: Vec<LauncherCoin> = Vec::new();
        let mut i: usize = 0;
        while i < self.launchers.len()
            invariant
                self.wf(),
                i <= self.launchers.len(),
                records@ == current_launchers(self.launchers@.take(i as int), kind, self.coins@),
            decreases self.launchers.len() - i,
        {
            assert(self.launchers@.take(i + 1).drop_last() == self.launchers@.take(i as int));
            let record = self.launchers[i];
            if record.kind == kind && self.is_unspent(&record.coin_id) {
                records.push(record);
            }
            i += 1;
        }
        assert(self.launchers@.take(self.launchers@.len() as int) == self.launchers@);
        records
    }

    /// The record of `launcher_id`, if it is of kind `kind` and its coin is
    /// known and unspent.
    fn resolve(&self, kind: LauncherKind, launcher_id: &Bytes32) -> (record: Option<LauncherCoin>)
        requires
            self.wf(),
        ensures
            record == resolve(self@.launchers, kind, self@.coins, *launcher_id),
    {
        match self.find_launcher(launcher_id) {
            Some(i) => {
                let record = self.launchers[i];
                if record.kind == kind && self.is_unspent(&record.coin_id) {
                    Some(record)
                } else {
                    None
                }
            },
            None => None,
        }
    }

    /// The current coin of every known identity: the latest in its
    /// lineage, where that coin is unspent.
    pub fn identity_list(&self) -> (identities: Vec<IdentityCoin>)
        requires
            self.wf(),
        ensures
            identities@ == current_launchers(self@.launchers, LauncherKind::Identity, self@.coins),
    {
        self.current(LauncherKind::Identity)
    }

    /// The current coin of every known token holder: the latest in its
    /// lineage, where that coin is unspent.
    pub fn token_holder_list(&self) -> (holders: Vec<TokenHolderCoin>)
        requires
            self.wf(),
        ensures
            holders@ == current_launchers(
                self@.launchers,
                LauncherKind::TokenHolder,
                self@.coins,
            ),
    {
        self.current(LauncherKind::TokenHolder)
    }

    /// The current coin of the identity `launcher_id`; `None` if the
    /// launcher is unknown, is no identity, or has no unspent coin.
    pub fn resolve_identity(&self, launcher_id: &Bytes32) -> (identity: Option<IdentityCoin>)
        requires
            self.wf(),
        ensures
            identity == resolve(
                self@.launchers,
                LauncherKind::Identity,
                self@.coins,
                *launcher_id,
            ),
    {
        self.resolve(LauncherKind::Identity, launcher_id)
    }

    /// The current coin of the token holder `launcher_id`; `None` if the
    /// launcher is unknown, is no token holder, or has no unspent coin.
    pub fn resolve_token_holder(&self, launcher_id: &Bytes32) -> (holder: Option<
        TokenHolderCoin,
    >)
        requires
            self.wf(),
        ensures
            holder == resolve(
                self@.launchers,
                LauncherKind::TokenHolder,
                self@.coins,
                *launcher_id,
            ),
    {
        self.resolve(LauncherKind::TokenHolder, launcher_id)
    }
}

/// A transaction on the store. Beginning it takes the store, so that a
/// store has at most one transaction under way. Every change goes to a
/// working copy; the committed state stays as it was, and can be read,
/// until the transaction ends. Committing hands back the store with all
/// changes made, aborting hands it back with none.
pub struct Transaction {
    committed: CoinStateStore,
    working: CoinStateStore,
}

impl View for Transaction {
    type V = StoreView;

    closed spec fn view(&self) -> StoreView {
        self.working@
    }
}

impl CoinStateStore {
    /// Begins a transaction on the store.
    pub fn begin(self) -> (tx: Transaction)
        ensures
            tx@ == self@,
            tx.committed_view() == self@,
    {
        let working = CoinStateStore {
            coins: copy_coins(&self.coins),
            derivations: self.derivations.duplicate(),
            launchers: copy_launchers(&self.launchers),
            synced_height: self.synced_height,
        };
        Transaction { committed: self, working }
    }
}

impl Transaction {
    /// The store's invariant, on the working copy.
    pub open spec fn wf(&self) -> bool {
        self@.wf()
    }

    /// What the store held when the transaction began.
    pub closed spec fn committed_view(&self) -> StoreView {
        self.committed@
    }

    /// The state as this transaction sees it, with its own changes.
    pub fn store(&self) -> (store: &CoinStateStore)
        ensures
            store@ == self@,
    {
        &self.working
    }

    /// The committed state, which none of this transaction's changes has
    /// reached.
    pub fn committed(&self) -> (store: &CoinStateStore)
        ensures
            store@ == self.committed_view(),
    {
        &self.committed
    }

    /// Ends the transaction and hands back the store with all of its
    /// changes made.
    pub fn commit(self) -> (store: CoinStateStore)
        ensures
            store@ == self@,
    {
        self.working
    }

    /// Ends the transaction and hands back the store as it was when the
    /// transaction began.
    pub fn abort(self) -> (store: CoinStateStore)
        ensures
            store@ == self.committed_view(),
    {
        self.committed
    }

    /// Inserts a coin, or gives a known coin new creation and spend
    /// heights. Fails with `InvalidHeightTransition`, changing nothing, if
    /// the coin is spent before or without its creation, or if a height
    /// that the stored coin has would be cleared.
    pub fn upsert_coin(&mut self, coin: Coin) -> (done: Result<(), Error>)
        requires
            old(self).wf(),
        ensures
            final(self).wf(),
            final(self).committed_view() == old(self).committed_view(),
            match upsert(old(self)@.coins, coin) {
                Ok(coins) => done is Ok && final(self)@ == old(self)@.with_coins(coins),
                Err(error) => done == Err::<(), Error>(error) && final(self)@ == old(self)@,
            },
    {
        if !coin.has_valid_heights() {
            return Err(Error::InvalidHeightTransition);
        }
        match self.working.find_coin(&coin.coin_id) {
            Some(i) => {
                let stored = self.working.coins[i];
                let clears = (stored.created_height.is_some() && coin.created_height.is_none())
                    || (stored.spent_height.is_some() && coin.spent_height.is_none());
                if clears {
                    Err(Error::InvalidHeightTransition)
                } else {
                    self.working.coins.set(
                        i,
                        Coin {
                            created_height: coin.created_height,
                            spent_height: coin.spent_height,
                            ..stored
                        },
                    );
                    Ok(())
                }
            },
            None => {
                self.working.coins.push(coin);
                Ok(())
            },
        }
    }

    /// Enters the latest coin of a lineage: it supersedes the coin recorded
    /// for its launcher, or starts the record of a new launcher.
    pub fn record_launcher_coin(&mut self, record: LauncherCoin)
        requires
            old(self).wf(),
        ensures
            final(self).wf(),
            final(self).committed_view() == old(self).committed_view(),
            final(self)@ == old(self)@.with_launcher(record),
    {
        match self.working.find_launcher(&record.launcher_id) {
            Some(i) => {
                self.working.launchers.set(i, record);
            },
            None => {
                self.working.launchers.push(record);
            },
        }
    }

    /// Extends a derivation chain by one index, with the puzzle hash that
    /// the keys give for it. Fails with `KeyDerivationError`, changing
    /// nothing, if the keys give none.
    pub fn allocate_next(&mut self, hardened: bool, keys: &KeyMaterial) -> (allocated: Result<
        DerivationRecord,
        Error,
    >)
        requires
            old(self).wf(),
            old(self)@.derivations.chain(hardened).len() <= u32::MAX,
        ensures
            final(self).wf(),
            final(self).committed_view() == old(self).committed_view(),
            match keys@.hash_at(hardened, old(self)@.derivations.chain(hardened).len() as int) {
                Some(puzzle_hash) => allocated == Ok::<DerivationRecord, Error>(
                    next_record(old(self)@.derivations.chain(hardened), hardened, puzzle_hash),
                ) && final(self)@ == old(self)@.with_derivations(
                    old(self)@.derivations.allocate_next(hardened, puzzle_hash),
                ),
                None => allocated == Err::<DerivationRecord, Error>(Error::KeyDerivationError)
                    && final(self)@ == old(self)@,
            },
    {
        self.working.derivations.allocate_next(hardened, keys)
    }

    /// Marks a derivation index used. Says whether the index is allocated.
    pub fn mark_used(&mut self, index: u32, hardened: bool) -> (known: bool)
        requires
            old(self).wf(),
        ensures
            final(self).wf(),
            final(self).committed_view() == old(self).committed_view(),
            final(self)@ == old(self)@.with_derivations(
                old(self)@.derivations.mark_used(index, hardened),
            ),
            known == (index < old(self)@.derivations.chain(hardened).len()),
    {
        self.working.derivations.mark_used(index, hardened)
    }

    /// Moves the synced height up to `height`; it never moves down.
    pub fn advance_synced_height(&mut self, height: u32)
        ensures
            final(self)@ == old(self)@.advanced_to(height),
            final(self).committed_view() == old(self).committed_view(),
    {
        if height > self.working.synced_height {
            self.working.synced_height = height;
        }
    }

    /// Puts the synced height back to genesis, so that everything is
    /// fetched again; the records stay and are overwritten as it goes.
    pub fn reset_synced_height(&mut self)
        ensures
            final(self)@ == old(self)@.reset(),
            final(self).committed_view() == old(self).committed_view(),
    {
        self.working.synced_height = 0;
    }
}

/// An accepted upsert keeps every coin in its place under its id, keeps
/// ids distinct, and leaves heights in order. In particular a spend
/// height that was set stays set, and is not below the creation height.
pub proof fn law_spent_height_kept(coins: Seq<Coin>, coin: Coin)
    requires
        distinct_coins(coins),
        all_heights_ok(coins),
        upsert(coins, coin) is Ok,
    ensures
        distinct_coins(upsert(coins, coin)->Ok_0),
        all_heights_ok(upsert(coins, coin)->Ok_0),
        upsert(coins, coin)->Ok_0.len() >= coins.len(),
        forall|i: int|
            0 <= i < coins.len() ==> (#[trigger] upsert(coins, coin)->Ok_0[i]).coin_id
                == coins[i].coin_id,
        forall|i: int|
            0 <= i < coins.len() && coins[i].spent_height is Some ==> (#[trigger] upsert(
                coins,
                coin,
            )->Ok_0[i]).spent_height is Some,
        forall|i: int|
            0 <= i < coins.len() && coins[i].created_height is Some ==> (#[trigger] upsert(
                coins,
                coin,
            )->Ok_0[i]).created_height is Some,
{
    let after = upsert(coins, coin)->Ok_0;
    match coin_position(coins, coin.coin_id) {
        Some(p) => {
            assert forall|i: int, j: int| 0 <= i < j < after.len() implies (#[trigger] after[i]).coin_id
                != (#[trigger] after[j]).coin_id by {
                assert(coins[i].coin_id != coins[j].coin_id);
            }
            assert forall|i: int| 0 <= i < after.len() implies (#[trigger] after[i]).heights_ok() by {
                assert(coins[i].heights_ok());
            }
        },
        None => {
            assert forall|i: int, j: int| 0 <= i < j < after.len() implies (#[trigger] after[i]).coin_id
                != (#[trigger] after[j]).coin_id by {
                if j < coins.len() {
                    assert(coins[i].coin_id != coins[j].coin_id);
                } else {
                    assert(coins[i].coin_id != coin.coin_id);
                }
            }
            assert forall|i: int| 0 <= i < after.len() implies (#[trigger] after[i]).heights_ok() by {
                if i < coins.len() {
                    assert(coins[i].heights_ok());
                }
            }
        },
    }
}

/// Upserting a coin a second time changes nothing: it is accepted again
/// and leaves the coins as the first upsert left them.
pub proof fn law_upsert_idempotent(coins: Seq<Coin>, coin: Coin)
    requires
        distinct_coins(coins),
        all_heights_ok(coins),
        upsert(coins, coin) is Ok,
    ensures
        upsert(upsert(coins, coin)->Ok_0, coin) == upsert(coins, coin),
{
    let after = upsert(coins, coin)->Ok_0;
    law_spent_height_kept(coins, coin);
    let p = match coin_position(coins, coin.coin_id) {
        Some(p) => p,
        None => coins.len() as int,
    };
    assert(after[p].coin_id == coin.coin_id);
    lemma_coin_position(after, coin.coin_id, p);
    assert(after.update(p, after[p].with_heights_of(coin)) =~= after);
}

/// Every record that is listed as current is a stored record of that
/// kind whose coin is unspent.
pub proof fn lemma_current_members(
    launchers: Seq<LauncherCoin>,
    kind: LauncherKind,
    coins: Seq<Coin>,
)
    ensures
        forall|i: int|
            0 <= i < current_launchers(launchers, kind, coins).len() ==> launchers.contains(
                #[trigger] current_launchers(launchers, kind, coins)[i],
            ) && is_current(current_launchers(launchers, kind, coins)[i], kind, coins),
    decreases launchers.len(),
{
    if launchers.len() > 0 {
        let shorter = launchers.drop_last();
        lemma_current_members(shorter, kind, coins);
        let listed = current_launchers(launchers, kind, coins);
        assert forall|i: int| 0 <= i < listed.len() implies launchers.contains(
            #[trigger] listed[i],
        ) && is_current(listed[i], kind, coins) by {
            if i < current_launchers(shorter, kind, coins).len() {
                let record = current_launchers(shorter, kind, coins)[i];
                assert(shorter.contains(record));
                let k = choose|k: int| 0 <= k < shorter.len() && shorter[k] == record;
                assert(launchers[k] == record);
            } else {
                assert(listed[i] == launchers.last());
                assert(launchers[launchers.len() - 1] == launchers.last());
            }
        }
    }
}

/// Every launcher that is listed resolves, to the record that was listed.
pub proof fn law_listed_resolves(store: StoreView, kind: LauncherKind, i: int)
    requires
        store.wf(),
        0 <= i < current_launchers(store.launchers, kind, store.coins).len(),
    ensures
        resolve(
            store.launchers,
            kind,
            store.coins,
            current_launchers(store.launchers, kind, store.coins)[i].launcher_id,
        ) == Some(current_launchers(store.launchers, kind, store.coins)[i]),
{
    lemma_current_members(store.launchers, kind, store.coins);
    let record = current_launchers(store.launchers, kind, store.coins)[i];
    assert(store.launchers.contains(record));
    let k = choose|k: int| 0 <= k < store.launchers.len() && store.launchers[k] == record;
    lemma_launcher_position(store.launchers, record.launcher_id, k);
}

/// Entering a record a second time changes nothing.
pub proof fn lemma_supersede_idempotent(launchers: Seq<LauncherCoin>, record: LauncherCoin)
    requires
        distinct_launchers(launchers),
    ensures
        distinct_launchers(supersede(launchers, record)),
        supersede(supersede(launchers, record), record) == supersede(launchers, record),
{
    let after = supersede(launchers, record);
    let p = match launcher_position(launchers, record.launcher_id) {
        Some(p) => p,
        None => launchers.len() as int,
    };
    assert forall|i: int, j: int| 0 <= i < j < after.len() implies (#[trigger] after[i]).launcher_id
        != (#[trigger] after[j]).launcher_id by {
        if j < launchers.len() {
            assert(launchers[i].launcher_id != launchers[j].launcher_id);
        } else {
            assert(launchers[i].launcher_id != record.launcher_id);
        }
    }
    lemma_launcher_position(after, record.launcher_id, p);
    assert(after.update(p, record) =~= after);
}

/// The balance after an accepted upsert is the balance before it, less
/// what the stored coin added, plus what the coin adds as it is stored now.
pub proof fn law_balance_after_upsert(coins: Seq<Coin>, derivations: DerivationView, coin: Coin)
    requires
        distinct_coins(coins),
        upsert(coins, coin) is Ok,
    ensures
        balance_of(upsert(coins, coin)->Ok_0, derivations) == match coin_position(
            coins,
            coin.coin_id,
        ) {
            Some(i) => balance_of(coins, derivations) - contribution(coins[i], derivations)
                + contribution(coins[i].with_heights_of(coin), derivations),
            None => (balance_of(coins, derivations) + contribution(coin, derivations)) as int,
        },
{
    match coin_position(coins, coin.coin_id) {
        Some(i) => {
            lemma_balance_update(coins, derivations, i, coins[i].with_heights_of(coin));
        },
        None => {
            assert(coins.push(coin).drop_last() == coins);
        },
    }
}

/// Replacing one coin changes the balance by the difference of what the
/// two coins add.
pub proof fn lemma_balance_update(
    coins: Seq<Coin>,
    derivations: DerivationView,
    i: int,
    coin: Coin,
)
    requires
        0 <= i < coins.len(),
    ensures
        balance_of(coins.update(i, coin), derivations) == balance_of(coins, derivations)
            - contribution(coins[i], derivations) + contribution(coin, derivations),
    decreases coins.len(),
{
    let updated = coins.update(i, coin);
    if i == coins.len() - 1 {
        assert(updated.drop_last() == coins.drop_last());
    } else {
        lemma_balance_update(coins.drop_last(), derivations, i, coin);
        assert(updated.drop_last() == coins.drop_last().update(i, coin));
    }
}

} // verus!

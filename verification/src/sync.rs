//! Reconciliation: bringing the store in line with what a peer reports.
//! The reconciler keeps no state of its own. It applies each batch of
//! reported coins in one transaction, and decides which peer to ask next.

use vstd::prelude::*;
use crate::bytes::Bytes32;
use crate::derivation::{
    law_mark_used_idempotent, lemma_first_with, lemma_place_after_mark, DerivationView,
    KeyMaterial, KeysView,
};
use crate::error::Error;
use crate::peers::{peers_of, IpAddress, Peer, PeerRegistry, RegistryView};
use crate::store::{
    coin_position, law_spent_height_kept, law_upsert_idempotent, lemma_coin_position,
    lemma_supersede_idempotent, supersede, upsert, Coin, CoinStateStore, LauncherCoin,
    LauncherKind, StoreView, Transaction,
};

verus! {

/// A place in the derivation chains.
#[derive(Debug, Clone, Copy, PartialEq, Eq, Structural)]
pub struct Place {
    pub hardened: bool,
    pub index: u32,
}

/// The lineage that a coin belongs to.
#[derive(Debug, Clone, Copy)]
pub struct Lineage {
    pub kind: LauncherKind,
    pub launcher_id: Bytes32,
}

/// What a peer reports about one coin. A height that is absent is one the
/// report does not speak of: the stored height stays.
#[derive(Debug, Clone, Copy)]
pub struct CoinDelta {
    pub coin_id: Bytes32,
    pub owner_puzzle_hash: Bytes32,
    pub amount: u64,
    pub created_height: Option<u32>,
    pub spent_height: Option<u32>,
    /// Where the owner puzzle hash is derived, if the report says so.
    pub place: Option<Place>,
    /// The lineage of the coin, if it is the coin of an identity or a
    /// token holder.
    pub lineage: Option<Lineage>,
}

/// The coin that a report amounts to, given what is stored: its heights
/// are those of the report, and the stored ones where the report has none.
pub open spec fn merged(coins: Seq<Coin>, delta: CoinDelta) -> Coin {
    let (created, spent) = match coin_position(coins, delta.coin_id) {
        Some(i) => (coins[i].created_height, coins[i].spent_height),
        None => (None, None),
    };
    Coin {
        coin_id: delta.coin_id,
        owner_puzzle_hash: delta.owner_puzzle_hash,
        amount: delta.amount,
        created_height: if delta.created_height is Some {
            delta.created_height
        } else {
            created
        },
        spent_height: if delta.spent_height is Some {
            delta.spent_height
        } else {
            spent
        },
    }
}

/// The chains allocated forward until `index` is allocated, or
/// `KeyDerivationError` if the keys give no hash for an index on the way.
pub open spec fn extend_to(
    derivations: DerivationView,
    keys: KeysView,
    hardened: bool,
    index: u32,
) -> Result<DerivationView, Error>
    decreases index + 1 - derivations.chain(hardened).len(),
{
    let allocated = derivations.chain(hardened).len();
    if index < allocated {
        Ok(derivations)
    } else {
        match keys.hash_at(hardened, allocated as int) {
            Some(puzzle_hash) => extend_to(
                derivations.allocate_next(hardened, puzzle_hash),
                keys,
                hardened,
                index,
            ),
            None => Err(Error::KeyDerivationError),
        }
    }
}

/// The chains allocated forward until `place` is covered, and then with
/// `place` marked used.
pub open spec fn cover(derivations: DerivationView, keys: KeysView, place: Place) -> Result<
    DerivationView,
    Error,
> {
    match extend_to(derivations, keys, place.hardened, place.index) {
        Ok(extended) => Ok(extended.mark_used(place.index, place.hardened)),
        Err(error) => Err(error),
    }
}

/// The place of a reported coin: the one the report names, or else the
/// one at which its owner puzzle hash is already derived.
pub open spec fn place_for(derivations: DerivationView, delta: CoinDelta) -> Option<Place> {
    match delta.place {
        Some(place) => Some(place),
        None => match derivations.place_of(delta.owner_puzzle_hash) {
            Some((hardened, index)) => Some(Place { hardened, index }),
            None => None,
        },
    }
}

/// The launcher records after a report: an unspent coin with a lineage
/// becomes the latest coin of that lineage.
pub open spec fn launchers_after(
    launchers: Seq<LauncherCoin>,
    delta: CoinDelta,
    coin: Coin,
) -> Seq<LauncherCoin> {
    match delta.lineage {
        Some(lineage) => if coin.spent_height is None {
            supersede(
                launchers,
                LauncherCoin {
                    kind: lineage.kind,
                    launcher_id: lineage.launcher_id,
                    coin_id: delta.coin_id,
                    owner_puzzle_hash: delta.owner_puzzle_hash,
                },
            )
        } else {
            launchers
        },
        None => launchers,
    }
}

/// The store after one report, or the error that refuses it.
pub open spec fn delta_applied(store: StoreView, keys: KeysView, delta: CoinDelta) -> Result<
    StoreView,
    Error,
> {
    let coin = merged(store.coins, delta);
    match upsert(store.coins, coin) {
        Err(error) => Err(error),
        Ok(coins) => {
            let covered = match place_for(store.derivations, delta) {
                Some(place) => cover(store.derivations, keys, place),
                None => Ok(store.derivations),
            };
            match covered {
                Err(error) => Err(error),
                Ok(derivations) => Ok(
                    StoreView {
                        coins,
                        derivations,
                        launchers: launchers_after(store.launchers, delta, coin),
                        synced_height: store.synced_height,
                    },
                ),
            }
        },
    }
}

/// The store after the reports were applied in turn, or the first error.
pub open spec fn deltas_applied(store: StoreView, keys: KeysView, deltas: Seq<CoinDelta>) -> Result<
    StoreView,
    Error,
>
    decreases deltas.len(),
{
    if deltas.len() == 0 {
        Ok(store)
    } else {
        match deltas_applied(store, keys, deltas.drop_last()) {
            Ok(before) => delta_applied(before, keys, deltas.last()),
            Err(error) => Err(error),
        }
    }
}

/// The store after a batch: all reports applied, and then the synced
/// height moved up to the batch's height. The first error refuses the
/// whole batch.
pub open spec fn batch_applied(
    store: StoreView,
    keys: KeysView,
    deltas: Seq<CoinDelta>,
    height: u32,
) -> Result<StoreView, Error> {
    match deltas_applied(store, keys, deltas) {
        Ok(after) => Ok(after.advanced_to(height)),
        Err(error) => Err(error),
    }
}

/// Allocating forward keeps the chains dense, keeps every record that was
/// there, leaves the other chain alone, and adds unused records up to
/// `index`. It fails exactly when the keys give no hash for one of the
/// indices to add.
pub proof fn lemma_extend_to(
    derivations: DerivationView,
    keys: KeysView,
    hardened: bool,
    index: u32,
)
    requires
        derivations.wf(),
    ensures
        extend_to(derivations, keys, hardened, index) is Err <==> exists|i: int|
            derivations.chain(hardened).len() <= i <= index && (#[trigger] keys.hash_at(
                hardened,
                i,
            )) is None,
        extend_to(derivations, keys, hardened, index) matches Ok(extended) ==> {
            &&& extended.wf()
            &&& extended.chain(!hardened) == derivations.chain(!hardened)
            &&& extended.chain(hardened).len() == if index < derivations.chain(hardened).len() {
                derivations.chain(hardened).len()
            } else {
                (index + 1) as nat
            }
            &&& forall|i: int|
                0 <= i < derivations.chain(hardened).len() ==> (#[trigger] extended.chain(
                    hardened,
                )[i]) == derivations.chain(hardened)[i]
            &&& forall|i: int|
                derivations.chain(hardened).len() <= i <= index ==> !(#[trigger] extended.chain(
                    hardened,
                )[i]).used && keys.hash_at(hardened, i) == Some(
                    extended.chain(hardened)[i].puzzle_hash,
                )
        },
    decreases index + 1 - derivations.chain(hardened).len(),
{
    let allocated = derivations.chain(hardened).len();
    if index >= allocated {
        match keys.hash_at(hardened, allocated as int) {
            Some(puzzle_hash) => {
                let next = derivations.allocate_next(hardened, puzzle_hash);
                assert(next.chain(hardened).len() == allocated + 1);
                assert(next.wf());
                lemma_extend_to(next, keys, hardened, index);
                if extend_to(next, keys, hardened, index) is Err {
                    let i = choose|i: int|
                        next.chain(hardened).len() <= i <= index && (#[trigger] keys.hash_at(
                            hardened,
                            i,
                        )) is None;
                    assert(allocated <= i <= index && keys.hash_at(hardened, i) is None);
                } else {
                    let extended = extend_to(next, keys, hardened, index)->Ok_0;
                    assert forall|i: int| 0 <= i < allocated implies (#[trigger] extended.chain(
                        hardened,
                    )[i]) == derivations.chain(hardened)[i] by {
                        assert(next.chain(hardened)[i] == derivations.chain(hardened)[i]);
                    }
                    assert forall|i: int| allocated <= i <= index implies !(
                    #[trigger] extended.chain(hardened)[i]).used && keys.hash_at(hardened, i)
                        == Some(extended.chain(hardened)[i].puzzle_hash) by {
                        if i == allocated {
                            assert(extended.chain(hardened)[i] == next.chain(hardened)[i]);
                        }
                    }
                    assert forall|i: int|
                        allocated <= i <= index implies (#[trigger] keys.hash_at(hardened, i))
                        is Some by {
                        assert(!extended.chain(hardened)[i].used);
                    }
                }
            },
            None => {
                assert(allocated <= allocated <= index && keys.hash_at(hardened, allocated as int)
                    is None);
            },
        }
    }
}

/// Where a coin arrives at an index beyond the allocated ones, and the
/// keys give a hash for every index up to it, the chain is extended up to
/// that index; the indices added before it are unused, the index itself
/// is used, and what was allocated before stays as it was.
pub proof fn law_cover_extends(derivations: DerivationView, keys: KeysView, place: Place)
    requires
        derivations.wf(),
        place.index >= derivations.chain(place.hardened).len(),
        forall|i: int|
            derivations.chain(place.hardened).len() <= i <= place.index ==> (
            #[trigger] keys.hash_at(place.hardened, i)) is Some,
    ensures
        cover(derivations, keys, place) matches Ok(covered) && {
            &&& covered.wf()
            &&& covered.chain(place.hardened).len() == place.index + 1
            &&& covered.chain(!place.hardened) == derivations.chain(!place.hardened)
            &&& forall|i: int|
                0 <= i < derivations.chain(place.hardened).len() ==> (#[trigger] covered.chain(
                    place.hardened,
                )[i]) == derivations.chain(place.hardened)[i]
            &&& forall|i: int|
                derivations.chain(place.hardened).len() <= i < place.index ==> !(
                #[trigger] covered.chain(place.hardened)[i]).used
            &&& covered.chain(place.hardened)[place.index as int].used
        },
{
    lemma_extend_to(derivations, keys, place.hardened, place.index);
    let extended = extend_to(derivations, keys, place.hardened, place.index)->Ok_0;
    let covered = extended.mark_used(place.index, place.hardened);
    assert forall|i: int| 0 <= i < derivations.chain(place.hardened).len() implies (
    #[trigger] covered.chain(place.hardened)[i]) == derivations.chain(place.hardened)[i] by {
        assert(extended.chain(place.hardened)[i] == derivations.chain(place.hardened)[i]);
    }
    assert forall|i: int| derivations.chain(place.hardened).len() <= i < place.index implies !(
    #[trigger] covered.chain(place.hardened)[i]).used by {
        assert(!extended.chain(place.hardened)[i].used);
    }
    assert forall|i: int| 0 <= i < covered.chain(place.hardened).len() implies (
    #[trigger] covered.chain(place.hardened)[i]).index == i && covered.chain(
        place.hardened,
    )[i].hardened == place.hardened by {
        assert(extended.chain(place.hardened)[i].index == i);
    }
}

/// An error on a prefix of the reports is the error of the whole.
pub proof fn lemma_first_error(store: StoreView, keys: KeysView, deltas: Seq<CoinDelta>, i: int)
    requires
        0 <= i <= deltas.len(),
        deltas_applied(store, keys, deltas.take(i)) is Err,
    ensures
        deltas_applied(store, keys, deltas) == deltas_applied(store, keys, deltas.take(i)),
    decreases deltas.len() - i,
{
    if i < deltas.len() {
        assert(deltas.take(i + 1).drop_last() == deltas.take(i));
        lemma_first_error(store, keys, deltas, i + 1);
    } else {
        assert(deltas.take(i) == deltas);
    }
}

/// Allocates forward in the transaction until `place` is covered, then
/// marks it used. After an error the transaction is to be aborted.
fn cover_place(tx: &mut Transaction, keys: &KeyMaterial, place: Place) -> (done: Result<(), Error>)
    requires
        old(tx).wf(),
    ensures
        final(tx).wf(),
        final(tx).committed_view() == old(tx).committed_view(),
        match cover(old(tx)@.derivations, keys@, place) {
            Ok(derivations) => done is Ok && final(tx)@ == old(tx)@.with_derivations(derivations),
            Err(error) => done == Err::<(), Error>(error),
        },
{
    let ghost before = tx@;
    let mut allocated = tx.store().derivations().allocated(place.hardened);
    while allocated <= place.index as usize
        invariant
            tx.wf(),
            tx.committed_view() == old(tx).committed_view(),
            before == old(tx)@,
            allocated == tx@.derivations.chain(place.hardened).len(),
            tx@ == before.with_derivations(tx@.derivations),
            extend_to(tx@.derivations, keys@, place.hardened, place.index) == extend_to(
                before.derivations,
                keys@,
                place.hardened,
                place.index,
            ),
        decreases place.index + 1 - allocated,
    {
        let ghost reached = tx@.derivations;
        match tx.allocate_next(place.hardened, keys) {
            Ok(_) => {},
            Err(error) => {
                assert(extend_to(reached, keys@, place.hardened, place.index) == Err::<
                    DerivationView,
                    Error,
                >(error));
                return Err(error);
            },
        }
        assert(extend_to(reached, keys@, place.hardened, place.index) == extend_to(
            tx@.derivations,
            keys@,
            place.hardened,
            place.index,
        ));
        allocated = tx.store().derivations().allocated(place.hardened);
    }
    tx.mark_used(place.index, place.hardened);
    Ok(())
}

/// Applies one report in the transaction. After an error the transaction
/// is to be aborted.
fn apply_one(tx: &mut Transaction, keys: &KeyMaterial, delta: &CoinDelta) -> (done: Result<
    (),
    Error,
>)
    requires
        old(tx).wf(),
    ensures
        final(tx).wf(),
        final(tx).committed_view() == old(tx).committed_view(),
        match delta_applied(old(tx)@, keys@, *delta) {
            Ok(after) => done is Ok && final(tx)@ == after,
            Err(error) => done == Err::<(), Error>(error),
        },
{
    let stored = tx.store().coin(&delta.coin_id);
    let coin = Coin {
        coin_id: delta.coin_id,
        owner_puzzle_hash: delta.owner_puzzle_hash,
        amount: delta.amount,
        created_height: match delta.created_height {
            Some(height) => Some(height),
            None => match stored {
                Some(known) => known.created_height,
                None => None,
            },
        },
        spent_height: match delta.spent_height {
            Some(height) => Some(height),
            None => match stored {
                Some(known) => known.spent_height,
                None => None,
            },
        },
    };
    assert(coin == merged(tx@.coins, *delta));
    let place = match delta.place {
        Some(place) => Some(place),
        None => match tx.store().derivations().locate(&delta.owner_puzzle_hash) {
            Some((hardened, index)) => Some(Place { hardened, index }),
            None => None,
        },
    };
    match tx.upsert_coin(coin) {
        Ok(()) => {},
        Err(error) => {
            return Err(error);
        },
    }
    match place {
        Some(place) => match cover_place(tx, keys, place) {
            Ok(()) => {},
            Err(error) => {
                return Err(error);
            },
        },
        None => {},
    }
    match delta.lineage {
        Some(lineage) => {
            if coin.spent_height.is_none() {
                tx.record_launcher_coin(
                    LauncherCoin {
                        kind: lineage.kind,
                        launcher_id: lineage.launcher_id,
                        coin_id: delta.coin_id,
                        owner_puzzle_hash: delta.owner_puzzle_hash,
                    },
                );
            }
        },
        None => {},
    }
    Ok(())
}

/// Applies a batch of reports in one transaction, and then moves the
/// synced height up to the batch's height. If any report is refused, the
/// transaction is aborted: the store is left exactly as it was, synced
/// height included, and the error is returned.
pub fn apply_batch(
    store: &mut CoinStateStore,
    keys: &KeyMaterial,
    deltas: &Vec<CoinDelta>,
    height: u32,
) -> (done: Result<(), Error>)
    requires
        old(store).wf(),
    ensures
        final(store).wf(),
        match batch_applied(old(store)@, keys@, deltas@, height) {
            Ok(after) => done is Ok && final(store)@ == after,
            Err(error) => done == Err::<(), Error>(error) && final(store)@ == old(store)@,
        },
{
    let mut taken = CoinStateStore::new();
    core::mem::swap(store, &mut taken);
    let mut tx = taken.begin();
    let mut i: usize = 0;
    while i < deltas.len()
        invariant
            i <= deltas.len(),
            tx.wf(),
            old(store).wf(),
            tx.committed_view() == old(store)@,
            deltas_applied(old(store)@, keys@, deltas@.take(i as int)) == Ok::<StoreView, Error>(
                tx@,
            ),
        decreases deltas.len() - i,
    {
        assert(deltas@.take(i + 1).drop_last() == deltas@.take(i as int));
        match apply_one(&mut tx, keys, &deltas[i]) {
            Ok(()) => {},
            Err(error) => {
                proof {
                    lemma_first_error(old(store)@, keys@, deltas@, i + 1);
                }
                *store = tx.abort();
                return Err(error);
            },
        }
        i += 1;
    }
    assert(deltas@.take(deltas@.len() as int) == deltas@);
    tx.advance_synced_height(height);
    *store = tx.commit();
    Ok(())
}

/// Puts the synced height back to genesis, in a transaction of its own,
/// so that the next cycle fetches everything again. The records stay and
/// are overwritten as the replay reaches them.
pub fn resync(store: &mut CoinStateStore)
    requires
        old(store).wf(),
    ensures
        final(store).wf(),
        final(store)@ == old(store)@.reset(),
{
    let mut taken = CoinStateStore::new();
    core::mem::swap(store, &mut taken);
    let mut tx = taken.begin();
    tx.reset_synced_height();
    *store = tx.commit();
}

/// What the caller is to do next in a cycle.
#[derive(Debug, Clone, Copy, PartialEq, Eq, Structural)]
pub enum SyncAction {
    /// Ask `peer` for the coin updates since `since_height`.
    Fetch { peer: Peer, since_height: u32 },
    /// Every active peer has been tried: the sync stalls.
    Stalled,
}

/// How the caller is to go on after an error.
#[derive(Debug, Clone, Copy, PartialEq, Eq, Structural)]
pub enum Recovery {
    /// Try the next peer.
    Rotate,
    /// Fetch the batch again, from the same or another peer.
    RetryBatch,
    /// Hand the error to the caller.
    Surface,
}

/// A peer's answer to a request: the coins it reports, and the height up
/// to which the report is complete.
#[derive(Debug, Clone)]
pub struct Batch {
    pub deltas: Vec<CoinDelta>,
    pub height: u32,
}

/// Whether `peer` is active, has not been tried, and has the lowest
/// address of all such peers.
pub open spec fn is_next_peer(registry: RegistryView, tried: Seq<IpAddress>, peer: Peer) -> bool {
    &&& peers_of(registry.slots).contains(peer)
    &&& !tried.contains(peer.ip)
    &&& forall|other: Peer|
        peers_of(registry.slots).contains(other) && !tried.contains(other.ip) ==> peer.ip.le(
            other.ip,
        )
}

/// Whether every active peer has been tried.
pub open spec fn all_tried(registry: RegistryView, tried: Seq<IpAddress>) -> bool {
    forall|other: Peer| peers_of(registry.slots).contains(other) ==> tried.contains(other.ip)
}

/// Whether `ip` is among `tried`.
fn was_tried(tried: &Vec<IpAddress>, ip: IpAddress) -> (found: bool)
    ensures
        found == tried@.contains(ip),
{
    let mut i: usize = 0;
    while i < tried.len()
        invariant
            i <= tried.len(),
            forall|j: int| 0 <= j < i ==> tried@[j] != ip,
        decreases tried.len() - i,
    {
        if tried[i] == ip {
            return true;
        }
        i += 1;
    }
    false
}

/// Picks the peer to ask next: the active peer with the lowest address
/// among those not yet tried in this cycle. A request to it is noted as
/// under way. If every active peer has been tried, the sync stalls and
/// the registry is left as it was.
pub fn next_request(registry: &mut PeerRegistry, store: &CoinStateStore, tried: &Vec<IpAddress>) -> (action:
    SyncAction)
    requires
        old(registry).wf(),
    ensures
        final(registry).wf(),
        match action {
            SyncAction::Fetch { peer, since_height } => is_next_peer(old(registry)@, tried@, peer)
                && since_height == store@.synced_height && final(registry)@
                == old(registry)@.begin_request(peer.ip) && final(registry)@.has_request(peer.ip),
            SyncAction::Stalled => all_tried(old(registry)@, tried@) && final(registry)@
                == old(registry)@,
        },
{
    let listing = registry.list();
    let mut i: usize = 0;
    while i < listing.len()
        invariant
            i <= listing.len(),
            registry.wf(),
            registry@ == old(registry)@,
            registry@.is_listing(listing@),
            forall|peer: Peer| listing@.contains(peer) <==> peers_of(registry@.slots).contains(peer),
            forall|j: int| 0 <= j < i ==> tried@.contains((#[trigger] listing@[j]).ip),
        decreases listing.len() - i,
    {
        let peer = listing[i];
        if !was_tried(tried, peer.ip) {
            proof {
                assert(listing@.contains(peer));
                assert forall|other: Peer|
                    peers_of(registry@.slots).contains(other) && !tried@.contains(
                        other.ip,
                    ) implies peer.ip.le(other.ip) by {
                    assert(listing@.contains(other));
                    let j = choose|j: int| 0 <= j < listing@.len() && listing@[j] == other;
                    if j < i {
                        assert(tried@.contains(listing@[j].ip));
                    } else if j > i {
                        assert(listing@[i as int].ip.lt(listing@[j].ip));
                    }
                }
                let k = choose|k: int|
                    0 <= k < registry@.slots.len() && peers_of(registry@.slots)[k] == peer;
                crate::peers::lemma_position_unique(registry@.slots, peer.ip, k);
            }
            let started = registry.begin_request(peer.ip);
            assert(started is Ok);
            return SyncAction::Fetch { peer, since_height: store.synced_height() };
        }
        i += 1;
    }
    proof {
        assert forall|other: Peer| peers_of(registry@.slots).contains(other) implies tried@.contains(
            other.ip,
        ) by {
            assert(listing@.contains(other));
            let j = choose|j: int| 0 <= j < listing@.len() && listing@[j] == other;
            assert(tried@.contains(listing@[j].ip));
        }
    }
    SyncAction::Stalled
}

/// What becomes of the store when the answer to a request comes in.
pub open spec fn received(
    registry: RegistryView,
    store: StoreView,
    keys: KeysView,
    peer: IpAddress,
    response: Result<Batch, Error>,
) -> Result<StoreView, Error> {
    if !registry.has_request(peer) {
        Err(Error::PeerUnavailable)
    } else {
        match response {
            Ok(batch) => batch_applied(store, keys, batch.deltas@, batch.height),
            Err(error) => Err(error),
        }
    }
}

/// Takes the answer to the request that was made to `peer`. The request
/// has failed with `PeerUnavailable` if the peer was removed or banned
/// meanwhile; a failure that the peer layer reports is passed on; a batch
/// is applied in one transaction. Unless the batch is applied, the store
/// and its synced height stay as they were.
pub fn receive(
    registry: &mut PeerRegistry,
    store: &mut CoinStateStore,
    keys: &KeyMaterial,
    peer: IpAddress,
    response: Result<Batch, Error>,
) -> (done: Result<(), Error>)
    requires
        old(registry).wf(),
        old(store).wf(),
    ensures
        final(registry).wf(),
        final(store).wf(),
        !final(registry)@.has_request(peer),
        final(registry)@ == if old(registry)@.has_request(peer) {
            old(registry)@.complete_request(peer)
        } else {
            old(registry)@
        },
        match received(old(registry)@, old(store)@, keys@, peer, response) {
            Ok(after) => done is Ok && final(store)@ == after,
            Err(error) => done == Err::<(), Error>(error) && final(store)@ == old(store)@,
        },
{
    match registry.complete_request(peer) {
        Ok(()) => {},
        Err(error) => {
            return Err(error);
        },
    }
    match response {
        Ok(batch) => apply_batch(store, keys, &batch.deltas, batch.height),
        Err(error) => Err(error),
    }
}

/// How to go on after an error: a peer that is gone or silent is rotated
/// out, a batch that was refused for its heights is fetched again, and
/// anything else goes to the caller.
pub fn recovery_for(error: Error) -> (recovery: Recovery)
    ensures
        recovery == match error {
            Error::PeerUnavailable | Error::Timeout => Recovery::Rotate,
            Error::InvalidHeightTransition => Recovery::RetryBatch,
            _ => Recovery::Surface,
        },
{
    match error {
        Error::PeerUnavailable | Error::Timeout => Recovery::Rotate,
        Error::InvalidHeightTransition => Recovery::RetryBatch,
        _ => Recovery::Surface,
    }
}

/// Applying a report a second time changes nothing: it is accepted
/// again, and the store is as the first application left it.
pub proof fn law_delta_idempotent(store: StoreView, keys: KeysView, delta: CoinDelta)
    requires
        store.wf(),
        delta_applied(store, keys, delta) is Ok,
    ensures
        delta_applied(store, keys, delta)->Ok_0.wf(),
        delta_applied(delta_applied(store, keys, delta)->Ok_0, keys, delta) == delta_applied(
            store,
            keys,
            delta,
        ),
{
    let after = delta_applied(store, keys, delta)->Ok_0;
    let coin = merged(store.coins, delta);
    // The coin: merging the report with what is stored now gives the same coin.
    law_spent_height_kept(store.coins, coin);
    law_upsert_idempotent(store.coins, coin);
    let p = match coin_position(store.coins, delta.coin_id) {
        Some(p) => p,
        None => store.coins.len() as int,
    };
    assert(after.coins[p].coin_id == delta.coin_id);
    lemma_coin_position(after.coins, delta.coin_id, p);
    assert(merged(after.coins, delta) == coin);
    // The derivation chains: the place is covered already, and marked.
    match delta.place {
        Some(place) => {
            lemma_extend_to(store.derivations, keys, place.hardened, place.index);
            assert(extend_to(after.derivations, keys, place.hardened, place.index) == Ok::<
                DerivationView,
                Error,
            >(after.derivations));
            law_mark_used_idempotent(
                extend_to(store.derivations, keys, place.hardened, place.index)->Ok_0,
                place.hardened,
                place.index,
            );
            lemma_cover_wf(store.derivations, keys, place);
        },
        None => {
            match store.derivations.place_of(delta.owner_puzzle_hash) {
                Some((hardened, index)) => {
                    let place = Place { hardened, index };
                    lemma_first_with(store.derivations.unhardened, delta.owner_puzzle_hash);
                    lemma_first_with(store.derivations.hardened, delta.owner_puzzle_hash);
                    assert(index < store.derivations.chain(hardened).len());
                    lemma_place_after_mark(
                        store.derivations,
                        delta.owner_puzzle_hash,
                        index,
                        hardened,
                    );
                    law_mark_used_idempotent(store.derivations, hardened, index);
                    lemma_cover_wf(store.derivations, keys, place);
                },
                None => {},
            }
        },
    }
    // The launcher records.
    match delta.lineage {
        Some(lineage) => {
            lemma_supersede_idempotent(
                store.launchers,
                LauncherCoin {
                    kind: lineage.kind,
                    launcher_id: lineage.launcher_id,
                    coin_id: delta.coin_id,
                    owner_puzzle_hash: delta.owner_puzzle_hash,
                },
            );
        },
        None => {},
    }
}

/// An accepted report leaves the store well formed, every coin in its
/// place under its id, and every height that was set still set.
pub proof fn lemma_delta_keeps_heights(store: StoreView, keys: KeysView, delta: CoinDelta)
    requires
        store.wf(),
        delta_applied(store, keys, delta) is Ok,
    ensures
        delta_applied(store, keys, delta)->Ok_0.wf(),
        delta_applied(store, keys, delta)->Ok_0.coins.len() >= store.coins.len(),
        forall|i: int|
            0 <= i < store.coins.len() ==> {
                let before = store.coins[i];
                let after = #[trigger] delta_applied(store, keys, delta)->Ok_0.coins[i];
                &&& after.coin_id == before.coin_id
                &&& before.spent_height is Some ==> after.spent_height is Some
                &&& before.created_height is Some ==> after.created_height is Some
            },
{
    law_delta_idempotent(store, keys, delta);
    law_spent_height_kept(store.coins, merged(store.coins, delta));
}

/// However many reports are applied, a spend height that is set is never
/// cleared, nor is a creation height; every coin stays in its place under
/// its id; and on every coin that is spent, the spend height is not below
/// the creation height.
pub proof fn law_heights_never_cleared(store: StoreView, keys: KeysView, deltas: Seq<CoinDelta>)
    requires
        store.wf(),
        deltas_applied(store, keys, deltas) is Ok,
    ensures
        deltas_applied(store, keys, deltas)->Ok_0.wf(),
        deltas_applied(store, keys, deltas)->Ok_0.coins.len() >= store.coins.len(),
        forall|i: int|
            0 <= i < store.coins.len() ==> {
                let before = store.coins[i];
                let after = #[trigger] deltas_applied(store, keys, deltas)->Ok_0.coins[i];
                &&& after.coin_id == before.coin_id
                &&& before.spent_height is Some ==> after.spent_height is Some
                &&& before.created_height is Some ==> after.created_height is Some
            },
        forall|i: int|
            0 <= i < deltas_applied(store, keys, deltas)->Ok_0.coins.len() ==> (
            #[trigger] deltas_applied(store, keys, deltas)->Ok_0.coins[i]).heights_ok(),
    decreases deltas.len(),
{
    if deltas.len() > 0 {
        law_heights_never_cleared(store, keys, deltas.drop_last());
        let middle = deltas_applied(store, keys, deltas.drop_last())->Ok_0;
        lemma_delta_keeps_heights(middle, keys, deltas.last());
        let after = delta_applied(middle, keys, deltas.last())->Ok_0;
        assert forall|i: int| 0 <= i < store.coins.len() implies {
            let before = store.coins[i];
            let last = #[trigger] after.coins[i];
            &&& last.coin_id == before.coin_id
            &&& before.spent_height is Some ==> last.spent_height is Some
            &&& before.created_height is Some ==> last.created_height is Some
        } by {
            let between = middle.coins[i];
        }
    }
}

/// Covering a place keeps the chains dense.
pub proof fn lemma_cover_wf(derivations: DerivationView, keys: KeysView, place: Place)
    requires
        derivations.wf(),
        cover(derivations, keys, place) is Ok,
    ensures
        cover(derivations, keys, place)->Ok_0.wf(),
{
    lemma_extend_to(derivations, keys, place.hardened, place.index);
    let extended = extend_to(derivations, keys, place.hardened, place.index)->Ok_0;
    let covered = extended.mark_used(place.index, place.hardened);
    assert forall|i: int| 0 <= i < covered.chain(place.hardened).len() implies (
    #[trigger] covered.chain(place.hardened)[i]).index == i && covered.chain(
        place.hardened,
    )[i].hardened == place.hardened by {
        assert(extended.chain(place.hardened)[i].index == i);
    }
}

/// What the store amounts to at one moment. It is computed from the store
/// each time it is asked for and kept nowhere.
#[derive(Debug, Clone, Copy)]
pub struct SyncSnapshot {
    pub balance: u128,
    pub total_coin_count: usize,
    pub synced_coin_count: usize,
    pub next_receive_puzzle_hash: Bytes32,
}

/// The snapshot of a store, or `KeyDerivationError` where no unhardened
/// index is allocated, so that there is no address to receive at.
pub open spec fn snapshot_of(store: StoreView) -> Result<SyncSnapshot, Error> {
    match store.derivations.current_receive_index(false) {
        Some(index) => Ok(
            SyncSnapshot {
                balance: store.balance() as u128,
                total_coin_count: store.total_coin_count() as usize,
                synced_coin_count: store.synced_coin_count() as usize,
                next_receive_puzzle_hash: store.derivations.chain(false)[index].puzzle_hash,
            },
        ),
        None => Err(Error::KeyDerivationError),
    }
}

/// Computes the snapshot of the store: balance, coin counts, and the
/// puzzle hash at the current receive index of the unhardened chain.
pub fn snapshot(store: &CoinStateStore) -> (taken: Result<SyncSnapshot, Error>)
    requires
        store.wf(),
    ensures
        taken == snapshot_of(store@),
        taken matches Ok(snapshot) ==> snapshot.balance == store@.balance()
            && snapshot.total_coin_count == store@.total_coin_count()
            && snapshot.synced_coin_count == store@.synced_coin_count(),
{
    let balance = store.balance();
    let total_coin_count = store.total_coin_count();
    let synced_coin_count = store.synced_coin_count();
    match store.derivations().current_receive_index(false) {
        Some(index) => {
            proof {
                crate::derivation::lemma_max_used(store@.derivations.chain(false));
            }
            match store.derivations().record(index, false) {
                Some(record) => Ok(
                    SyncSnapshot {
                        balance,
                        total_coin_count,
                        synced_coin_count,
                        next_receive_puzzle_hash: record.puzzle_hash,
                    },
                ),
                None => Err(Error::KeyDerivationError),
            }
        },
        None => Err(Error::KeyDerivationError),
    }
}

} // verus!

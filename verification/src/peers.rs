//! The registry of peers: who is connected, who is banned, and which
//! connected peers have a request under way.

use vstd::prelude::*;
use itertools::Itertools;
use crate::error::Error;

verus! {

/// An IP address, as the number its bytes spell in network order.
#[derive(Debug, Clone, Copy, PartialEq, Eq, Structural)]
pub enum IpAddress {
    V4(u32),
    V6(u128),
}

/// The order on sort keys: by the first part, then by the second.
pub open spec fn key_le(a: (u8, u128), b: (u8, u128)) -> bool {
    a.0 < b.0 || (a.0 == b.0 && a.1 <= b.1)
}

impl IpAddress {
    /// The key by which addresses are ordered: every IPv4 address comes
    /// before every IPv6 address, and within a family the number decides.
    pub open spec fn spec_sort_key(self) -> (u8, u128) {
        match self {
            IpAddress::V4(bits) => (4u8, bits as u128),
            IpAddress::V6(bits) => (6u8, bits),
        }
    }

    /// The key by which addresses are ordered.
    pub fn sort_key(&self) -> (key: (u8, u128))
        ensures
            key == self.spec_sort_key(),
    {
        match self {
            IpAddress::V4(bits) => (4u8, *bits as u128),
            IpAddress::V6(bits) => (6u8, *bits),
        }
    }

    /// Whether `self` comes before `other`, or is `other`.
    pub open spec fn le(self, other: IpAddress) -> bool {
        key_le(self.spec_sort_key(), other.spec_sort_key())
    }

    /// Whether `self` comes strictly before `other`.
    pub open spec fn lt(self, other: IpAddress) -> bool {
        self.le(other) && self != other
    }
}

/// Two addresses with one sort key are one address.
pub proof fn lemma_sort_key_injective(a: IpAddress, b: IpAddress)
    ensures
        a.spec_sort_key() == b.spec_sort_key() <==> a == b,
{
}

/// A peer endpoint.
#[derive(Debug, Clone, Copy, PartialEq, Eq, Structural)]
pub struct Peer {
    pub ip: IpAddress,
    pub port: u16,
}

/// An active peer, and whether a request to it is under way.
#[derive(Debug, Clone, Copy, PartialEq, Eq, Structural)]
pub struct PeerSlot {
    pub peer: Peer,
    pub in_flight: bool,
}

/// What `add` did with a peer.
#[derive(Debug, Clone, Copy, PartialEq, Eq, Structural)]
pub enum AddOutcome {
    /// The peer joined the active set.
    Added,
    /// A peer with this address was active already; nothing changed.
    AlreadyActive,
    /// The address is banned; nothing changed.
    Banned,
}

/// Where in `slots` the peer with address `ip` stands.
pub open spec fn position(slots: Seq<PeerSlot>, ip: IpAddress) -> Option<int> {
    if exists|i: int| 0 <= i < slots.len() && slots[i].peer.ip == ip {
        Some(choose|i: int| 0 <= i < slots.len() && slots[i].peer.ip == ip)
    } else {
        None
    }
}

/// `slots` without the peer whose address is `ip`.
pub open spec fn without(slots: Seq<PeerSlot>, ip: IpAddress) -> Seq<PeerSlot> {
    match position(slots, ip) {
        Some(i) => slots.remove(i),
        None => slots,
    }
}

/// `slots` with the request flag of the peer at `ip` set to `flag`.
pub open spec fn with_flag(slots: Seq<PeerSlot>, ip: IpAddress, flag: bool) -> Seq<PeerSlot> {
    match position(slots, ip) {
        Some(i) => slots.update(i, PeerSlot { peer: slots[i].peer, in_flight: flag }),
        None => slots,
    }
}

/// No two slots share an address.
pub open spec fn distinct_ips(slots: Seq<PeerSlot>) -> bool {
    forall|i: int, j: int|
        0 <= i < j < slots.len() ==> (#[trigger] slots[i]).peer.ip != (#[trigger] slots[j]).peer.ip
}

/// Where addresses are distinct, the slot that holds `ip` is its position.
pub proof fn lemma_position_unique(slots: Seq<PeerSlot>, ip: IpAddress, i: int)
    requires
        distinct_ips(slots),
        0 <= i < slots.len(),
        slots[i].peer.ip == ip,
    ensures
        position(slots, ip) == Some(i),
{
    let k = choose|k: int| 0 <= k < slots.len() && slots[k].peer.ip == ip;
    if k < i {
        assert(slots[k].peer.ip != slots[i].peer.ip);
    } else if i < k {
        assert(slots[i].peer.ip != slots[k].peer.ip);
    }
}

/// The peers of the slots, in the same order.
pub open spec fn peers_of(slots: Seq<PeerSlot>) -> Seq<Peer> {
    Seq::new(slots.len(), |i: int| slots[i].peer)
}

/// Peers with sort key `key`.
pub open spec fn with_key(key: (u8, u128)) -> spec_fn(Peer) -> bool {
    |peer: Peer| peer.ip.spec_sort_key() == key
}

/// Calls itertools' `sorted_by_key` on the peers, keyed by the sort key of
/// their address, and collects what it yields. As documented there, the
/// result holds the same peers, in ascending order of the key, and peers
/// with equal keys keep their relative order.
#[verifier::external_body]
fn sorted_by_ip(peers: Vec<Peer>) -> (out: Vec<Peer>)
    ensures
        out@.to_multiset() == peers@.to_multiset(),
        forall|i: int, j: int|
            0 <= i <= j < out@.len() ==> (#[trigger] out@[i]).ip.le((#[trigger] out@[j]).ip),
        forall|key: (u8, u128)| #[trigger]
            out@.filter(with_key(key)) == peers@.filter(with_key(key)),
{
    peers.into_iter().sorted_by_key(|peer| peer.ip.sort_key()).collect()
}

/// What a registry holds: the active peers in the order they were added,
/// each with its request flag, and the banned addresses in the order they
/// were banned.
pub struct RegistryView {
    pub slots: Seq<PeerSlot>,
    pub banned: Seq<IpAddress>,
}

impl RegistryView {
    /// The invariant: one slot per address, each banned address listed
    /// once, and no banned address active.
    pub open spec fn wf(self) -> bool {
        &&& distinct_ips(self.slots)
        &&& self.banned.no_duplicates()
        &&& forall|i: int|
            0 <= i < self.slots.len() ==> !self.banned.contains((#[trigger] self.slots[i]).peer.ip)
    }

    /// Whether a peer with this address is active.
    pub open spec fn is_active(self, ip: IpAddress) -> bool {
        position(self.slots, ip) is Some
    }

    /// Whether this address is banned.
    pub open spec fn is_banned(self, ip: IpAddress) -> bool {
        self.banned.contains(ip)
    }

    /// Whether a request to the peer at this address is under way.
    pub open spec fn has_request(self, ip: IpAddress) -> bool {
        position(self.slots, ip) matches Some(i) && self.slots[i].in_flight
    }

    /// What `add` answers for `peer`.
    pub open spec fn add_outcome(self, peer: Peer) -> AddOutcome {
        if self.is_banned(peer.ip) {
            AddOutcome::Banned
        } else if self.is_active(peer.ip) {
            AddOutcome::AlreadyActive
        } else {
            AddOutcome::Added
        }
    }

    /// The registry after `add(peer)`.
    pub open spec fn add(self, peer: Peer) -> RegistryView {
        if self.add_outcome(peer) == AddOutcome::Added {
            RegistryView {
                slots: self.slots.push(PeerSlot { peer, in_flight: false }),
                banned: self.banned,
            }
        } else {
            self
        }
    }

    /// The registry after `remove(ip)`.
    pub open spec fn remove(self, ip: IpAddress) -> RegistryView {
        RegistryView { slots: without(self.slots, ip), banned: self.banned }
    }

    /// The registry after `ban(ip)`.
    pub open spec fn ban(self, ip: IpAddress) -> RegistryView {
        RegistryView {
            slots: without(self.slots, ip),
            banned: if self.is_banned(ip) {
                self.banned
            } else {
                self.banned.push(ip)
            },
        }
    }

    /// The registry after `begin_request(ip)`.
    pub open spec fn begin_request(self, ip: IpAddress) -> RegistryView {
        RegistryView { slots: with_flag(self.slots, ip, true), banned: self.banned }
    }

    /// What `complete_request(ip)` answers: the request succeeds only if the
    /// peer is still active and the request was under way.
    pub open spec fn request_result(self, ip: IpAddress) -> Result<(), Error> {
        if self.has_request(ip) {
            Ok(())
        } else {
            Err(Error::PeerUnavailable)
        }
    }

    /// The registry after `complete_request(ip)`.
    pub open spec fn complete_request(self, ip: IpAddress) -> RegistryView {
        RegistryView { slots: with_flag(self.slots, ip, false), banned: self.banned }
    }

    /// Whether `peers` is the listing of this registry: the active peers,
    /// each once, in strictly ascending order of address.
    pub open spec fn is_listing(self, peers: Seq<Peer>) -> bool {
        &&& peers.to_multiset() == peers_of(self.slots).to_multiset()
        &&& forall|i: int, j: int|
            0 <= i < j < peers.len() ==> (#[trigger] peers[i]).ip.lt((#[trigger] peers[j]).ip)
    }
}

/// The peers known to the wallet: the active ones, each with its request
/// flag, and the banned addresses.
pub struct PeerRegistry {
    active: Vec<PeerSlot>,
    banned: Vec<IpAddress>,
}

impl View for PeerRegistry {
    type V = RegistryView;

    closed spec fn view(&self) -> RegistryView {
        RegistryView { slots: self.active@, banned: self.banned@ }
    }
}

impl PeerRegistry {
    /// The registry's invariant.
    pub open spec fn wf(&self) -> bool {
        self@.wf()
    }

    /// A registry with no peers and no bans.
    pub fn new() -> (registry: PeerRegistry)
        ensures
            registry.wf(),
            registry@.slots == Seq::<PeerSlot>::empty(),
            registry@.banned == Seq::<IpAddress>::empty(),
    {
        PeerRegistry { active: Vec::new(), banned: Vec::new() }
    }

    /// The index of the active peer at `ip`.
    fn find(&self, ip: IpAddress) -> (found: Option<usize>)
        requires
            self.wf(),
        ensures
            found matches Some(i) ==> position(self@.slots, ip) == Some(i as int) && i
                < self@.slots.len() && self@.slots[i as int].peer.ip == ip,
            found is None ==> position(self@.slots, ip) is None,
    {
        let mut i: usize = 0;
        while i < self.active.len()
            invariant
                self.wf(),
                i <= self.active.len(),
                forall|j: int| 0 <= j < i ==> self.active@[j].peer.ip != ip,
            decreases self.active.len() - i,
        {
            if self.active[i].peer.ip == ip {
                proof {
                    lemma_position_unique(self@.slots, ip, i as int);
                }
                return Some(i);
            }
            i += 1;
        }
        None
    }

    /// Whether `ip` is banned.
    pub fn is_banned(&self, ip: IpAddress) -> (banned: bool)
        ensures
            banned == self@.is_banned(ip),
    {
        let mut i: usize = 0;
        while i < self.banned.len()
            invariant
                i <= self.banned.len(),
                forall|j: int| 0 <= j < i ==> self.banned@[j] != ip,
            decreases self.banned.len() - i,
        {
            if self.banned[i] == ip {
                return true;
            }
            i += 1;
        }
        false
    }

    /// Whether a peer with this address is in the active set.
    pub fn is_active(&self, ip: IpAddress) -> (active: bool)
        requires
            self.wf(),
        ensures
            active == self@.is_active(ip),
    {
        self.find(ip).is_some()
    }

    /// Adds a peer to the active set. A banned address is refused, and an
    /// address that is active already keeps its slot.
    pub fn add(&mut self, peer: Peer) -> (outcome: AddOutcome)
        requires
            old(self).wf(),
        ensures
            final(self).wf(),
            outcome == old(self)@.add_outcome(peer),
            final(self)@ == old(self)@.add(peer),
    {
        if self.is_banned(peer.ip) {
            AddOutcome::Banned
        } else if self.find(peer.ip).is_some() {
            AddOutcome::AlreadyActive
        } else {
            self.active.push(PeerSlot { peer, in_flight: false });
            AddOutcome::Added
        }
    }

    /// Takes the peer at `ip` out of the active set, and with it any
    /// request that was under way. Says whether there was such a peer.
    pub fn remove(&mut self, ip: IpAddress) -> (removed: bool)
        requires
            old(self).wf(),
        ensures
            final(self).wf(),
            removed == old(self)@.is_active(ip),
            final(self)@ == old(self)@.remove(ip),
            !final(self)@.is_active(ip),
    {
        match self.find(ip) {
            Some(i) => {
                self.active.remove(i);
                true
            },
            None => false,
        }
    }

    /// Bans `ip`: the address joins the banned ones, and the peer at it, if
    /// any, leaves the active set at once.
    pub fn ban(&mut self, ip: IpAddress)
        requires
            old(self).wf(),
        ensures
            final(self).wf(),
            final(self)@ == old(self)@.ban(ip),
            final(self)@.is_banned(ip),
            !final(self)@.is_active(ip),
    {
        self.remove(ip);
        if !self.is_banned(ip) {
            self.banned.push(ip);
            assert(self.banned@.last() == ip);
        }
    }

    /// Notes that a request to the peer at `ip` is under way. Fails with
    /// `PeerUnavailable`, changing nothing, if no such peer is active.
    pub fn begin_request(&mut self, ip: IpAddress) -> (started: Result<(), Error>)
        requires
            old(self).wf(),
        ensures
            final(self).wf(),
            started == if old(self)@.is_active(ip) {
                Ok::<(), Error>(())
            } else {
                Err(Error::PeerUnavailable)
            },
            final(self)@ == old(self)@.begin_request(ip),
            started is Ok ==> final(self)@.has_request(ip),
    {
        match self.find(ip) {
            Some(i) => {
                let peer = self.active[i].peer;
                self.active.set(i, PeerSlot { peer, in_flight: true });
                proof {
                    lemma_position_unique(self@.slots, ip, i as int);
                }
                Ok(())
            },
            None => Err(Error::PeerUnavailable),
        }
    }

    /// Closes the request to the peer at `ip`. The request has failed with
    /// `PeerUnavailable` if the peer left the active set meanwhile, or if no
    /// request to it was under way; nothing changes then.
    pub fn complete_request(&mut self, ip: IpAddress) -> (done: Result<(), Error>)
        requires
            old(self).wf(),
        ensures
            final(self).wf(),
            done == old(self)@.request_result(ip),
            done is Ok ==> final(self)@ == old(self)@.complete_request(ip),
            done is Err ==> final(self)@ == old(self)@,
            !final(self)@.has_request(ip),
    {
        match self.find(ip) {
            Some(i) => {
                if self.active[i].in_flight {
                    let peer = self.active[i].peer;
                    self.active.set(i, PeerSlot { peer, in_flight: false });
                    proof {
                        lemma_position_unique(self@.slots, ip, i as int);
                    }
                    Ok(())
                } else {
                    Err(Error::PeerUnavailable)
                }
            },
            None => Err(Error::PeerUnavailable),
        }
    }

    /// The active peers in ascending order of address.
    pub fn list(&self) -> (peers: Vec<Peer>)
        requires
            self.wf(),
        ensures
            self@.is_listing(peers@),
            peers@.len() == self@.slots.len(),
            forall|peer: Peer| peers@.contains(peer) <==> peers_of(self@.slots).contains(peer),
    {
        let mut all: Vec<Peer> = Vec::new();
        let mut i: usize = 0;
        while i < self.active.len()
            invariant
                i <= self.active.len(),
                all@.len() == i,
                forall|k: int| 0 <= k < i ==> all@[k] == self.active@[k].peer,
            decreases self.active.len() - i,
        {
            all.push(self.active[i].peer);
            i += 1;
        }
        assert(all@ =~= peers_of(self@.slots));
        let peers = sorted_by_ip(all);
        proof {
            lemma_listing(self@.slots, peers@);
        }
        peers
    }
}

/// A sequence that holds the peers of distinct slots, each as often as the
/// slots do, and is in ascending order, is in strictly ascending order and
/// as long as the slots.
pub proof fn lemma_listing(slots: Seq<PeerSlot>, peers: Seq<Peer>)
    requires
        distinct_ips(slots),
        peers.to_multiset() == peers_of(slots).to_multiset(),
        forall|i: int, j: int|
            0 <= i <= j < peers.len() ==> (#[trigger] peers[i]).ip.le((#[trigger] peers[j]).ip),
    ensures
        peers.len() == slots.len(),
        forall|peer: Peer| peers.contains(peer) <==> peers_of(slots).contains(peer),
        forall|i: int, j: int|
            0 <= i < j < peers.len() ==> (#[trigger] peers[i]).ip.lt((#[trigger] peers[j]).ip),
{
    let input = peers_of(slots);
    peers.to_multiset_ensures();
    input.to_multiset_ensures();
    assert(input.no_duplicates()) by {
        assert forall|i: int, j: int|
            0 <= i < input.len() && 0 <= j < input.len() && i != j implies input[i]
            != input[j] by {
            if i < j {
                assert(slots[i].peer.ip != slots[j].peer.ip);
            } else {
                assert(slots[j].peer.ip != slots[i].peer.ip);
            }
        }
    }
    input.lemma_multiset_has_no_duplicates();
    peers.lemma_multiset_has_no_duplicates_conv();
    assert forall|peer: Peer| peers.contains(peer) <==> input.contains(peer) by {
        lemma_same_members(peers, input, peer);
    }
    assert forall|i: int, j: int| 0 <= i < j < peers.len() implies (#[trigger] peers[i]).ip.lt(
        (#[trigger] peers[j]).ip,
    ) by {
        assert(peers[i].ip.le(peers[j].ip));
        lemma_same_members(peers, input, peers[i]);
        lemma_same_members(peers, input, peers[j]);
        let a = choose|a: int| 0 <= a < input.len() && input[a] == peers[i];
        let b = choose|b: int| 0 <= b < input.len() && input[b] == peers[j];
        assert(peers[i] != peers[j]);
        if a < b {
            assert(slots[a].peer.ip != slots[b].peer.ip);
        } else if b < a {
            assert(slots[b].peer.ip != slots[a].peer.ip);
        }
    }
}

/// A registry has one listing only: two sequences that both hold its
/// peers, each once, in strictly ascending order of address, are equal.
pub proof fn law_listing_unique(registry: RegistryView, first: Seq<Peer>, second: Seq<Peer>)
    requires
        registry.is_listing(first),
        registry.is_listing(second),
    ensures
        first == second,
{
    lemma_ascending_unique(first, second);
}

/// Two strictly ascending sequences with one multiset are equal.
pub proof fn lemma_ascending_unique(first: Seq<Peer>, second: Seq<Peer>)
    requires
        first.to_multiset() == second.to_multiset(),
        forall|i: int, j: int|
            0 <= i < j < first.len() ==> (#[trigger] first[i]).ip.lt((#[trigger] first[j]).ip),
        forall|i: int, j: int|
            0 <= i < j < second.len() ==> (#[trigger] second[i]).ip.lt((#[trigger] second[j]).ip),
    ensures
        first == second,
    decreases first.len(),
{
    first.to_multiset_ensures();
    second.to_multiset_ensures();
    if first.len() == 0 {
        assert(first =~= second);
    } else {
        let n = first.len() - 1;
        let a = first[n];
        let b = second[n];
        lemma_same_members(first, second, a);
        lemma_same_members(first, second, b);
        assert(first.contains(a));
        assert(second.contains(b));
        let k = choose|k: int| 0 <= k < second.len() && second[k] == a;
        let m = choose|m: int| 0 <= m < first.len() && first[m] == b;
        // Each last peer is in the other sequence, so neither comes before the other.
        if k < n {
            assert(second[k].ip.lt(second[n].ip));
        }
        if m < n {
            assert(first[m].ip.lt(first[n].ip));
        }
        assert(a.ip.le(b.ip) && b.ip.le(a.ip));
        lemma_sort_key_injective(a.ip, b.ip);
        assert(k == n);
        assert(a == b);
        assert(first.remove(n) =~= first.drop_last());
        assert(second.remove(n) =~= second.drop_last());
        assert(first.drop_last().to_multiset() == second.drop_last().to_multiset());
        assert forall|i: int, j: int| 0 <= i < j < first.drop_last().len() implies (
        #[trigger] first.drop_last()[i]).ip.lt((#[trigger] first.drop_last()[j]).ip) by {
            assert(first[i].ip.lt(first[j].ip));
        }
        assert forall|i: int, j: int| 0 <= i < j < second.drop_last().len() implies (
        #[trigger] second.drop_last()[i]).ip.lt((#[trigger] second.drop_last()[j]).ip) by {
            assert(second[i].ip.lt(second[j].ip));
        }
        lemma_ascending_unique(first.drop_last(), second.drop_last());
        assert(first =~= first.drop_last().push(a));
        assert(second =~= second.drop_last().push(b));
    }
}

/// Sequences with one multiset have the same members.
pub proof fn lemma_same_members(a: Seq<Peer>, b: Seq<Peer>, peer: Peer)
    requires
        a.to_multiset() == b.to_multiset(),
    ensures
        a.contains(peer) <==> b.contains(peer),
{
    a.to_multiset_ensures();
    b.to_multiset_ensures();
    assert(a.contains(peer) <==> a.to_multiset().count(peer) > 0);
    assert(b.contains(peer) <==> b.to_multiset().count(peer) > 0);
}

/// Banning a peer that has a request under way fails that request, and the
/// peer is absent from the listing taken right after.
pub proof fn law_ban_fails_request(registry: RegistryView, ip: IpAddress, listing: Seq<Peer>)
    requires
        registry.wf(),
        registry.has_request(ip),
        registry.ban(ip).is_listing(listing),
    ensures
        registry.ban(ip).wf(),
        registry.ban(ip).request_result(ip) == Err::<(), Error>(Error::PeerUnavailable),
        !registry.ban(ip).is_active(ip),
        forall|i: int| 0 <= i < listing.len() ==> (#[trigger] listing[i]).ip != ip,
{
    let after = registry.ban(ip);
    lemma_without(registry.slots, ip);
    assert(after.wf()) by {
        if !registry.is_banned(ip) {
            assert(registry.banned.push(ip).last() == ip);
        }
    }
    listing.to_multiset_ensures();
    peers_of(after.slots).to_multiset_ensures();
    assert forall|i: int| 0 <= i < listing.len() implies (#[trigger] listing[i]).ip != ip by {
        lemma_same_members(listing, peers_of(after.slots), listing[i]);
        let k = choose|k: int|
            0 <= k < after.slots.len() && peers_of(after.slots)[k] == listing[i];
        assert(after.slots[k].peer.ip != ip);
    }
}

/// Removing a peer that has a request under way fails that request, and
/// the peer is absent from the listing taken right after. The address is
/// not banned by it.
pub proof fn law_remove_fails_request(registry: RegistryView, ip: IpAddress, listing: Seq<Peer>)
    requires
        registry.wf(),
        registry.has_request(ip),
        registry.remove(ip).is_listing(listing),
    ensures
        registry.remove(ip).wf(),
        registry.remove(ip).request_result(ip) == Err::<(), Error>(Error::PeerUnavailable),
        !registry.remove(ip).is_active(ip),
        registry.remove(ip).is_banned(ip) == registry.is_banned(ip),
        forall|i: int| 0 <= i < listing.len() ==> (#[trigger] listing[i]).ip != ip,
{
    let after = registry.remove(ip);
    lemma_without(registry.slots, ip);
    listing.to_multiset_ensures();
    peers_of(after.slots).to_multiset_ensures();
    assert forall|i: int| 0 <= i < listing.len() implies (#[trigger] listing[i]).ip != ip by {
        lemma_same_members(listing, peers_of(after.slots), listing[i]);
        let k = choose|k: int|
            0 <= k < after.slots.len() && peers_of(after.slots)[k] == listing[i];
        assert(after.slots[k].peer.ip != ip);
    }
}

/// Taking an address out leaves distinct slots, none of them at that
/// address, and every slot left was there before.
pub proof fn lemma_without(slots: Seq<PeerSlot>, ip: IpAddress)
    requires
        distinct_ips(slots),
    ensures
        distinct_ips(without(slots, ip)),
        position(without(slots, ip), ip) is None,
        forall|i: int|
            0 <= i < without(slots, ip).len() ==> slots.contains(#[trigger] without(slots, ip)[i])
                && without(slots, ip)[i].peer.ip != ip,
{
    let rest = without(slots, ip);
    match position(slots, ip) {
        Some(p) => {
            assert forall|i: int| 0 <= i < rest.len() implies slots.contains(
                #[trigger] rest[i],
            ) && rest[i].peer.ip != ip by {
                if i < p {
                    assert(rest[i] == slots[i]);
                    assert(slots[i].peer.ip != slots[p].peer.ip);
                } else {
                    assert(rest[i] == slots[i + 1]);
                    assert(slots[p].peer.ip != slots[i + 1].peer.ip);
                }
            }
            assert forall|i: int, j: int| 0 <= i < j < rest.len() implies (#[trigger] rest[i]).peer.ip
                != (#[trigger] rest[j]).peer.ip by {
                let a = if i < p { i } else { i + 1 };
                let b = if j < p { j } else { j + 1 };
                assert(rest[i] == slots[a]);
                assert(rest[j] == slots[b]);
                assert(slots[a].peer.ip != slots[b].peer.ip);
            }
        },
        None => {},
    }
}

} // verus!

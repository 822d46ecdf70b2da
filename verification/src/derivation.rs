//! Derivation indices: which puzzle hashes have been allocated on each of
//! the two chains, and which of them have been used.

use vstd::prelude::*;
use crate::bytes::Bytes32;
use crate::error::Error;

verus! {

/// One allocated derivation index and the puzzle hash derived at it.
#[derive(Debug, Clone, Copy)]
pub struct DerivationRecord {
    pub index: u32,
    pub puzzle_hash: Bytes32,
    pub hardened: bool,
    pub used: bool,
}

/// The puzzle hashes that the wallet's keys give for a run of indices of
/// one chain: `hashes[k]` is the hash at index `start + k`.
#[derive(Debug, Clone)]
pub struct DerivedRange {
    pub start: u32,
    pub hashes: Vec<Bytes32>,
}

/// What the key layer has derived for the two chains. An index outside
/// the ranges is one for which no key material is at hand.
#[derive(Debug, Clone)]
pub struct KeyMaterial {
    pub unhardened: DerivedRange,
    pub hardened: DerivedRange,
}

/// What a `KeyMaterial` holds.
pub struct KeysView {
    pub unhardened_start: u32,
    pub unhardened: Seq<Bytes32>,
    pub hardened_start: u32,
    pub hardened: Seq<Bytes32>,
}

impl KeysView {
    /// The puzzle hash derived at `index` of a chain, if the keys give one.
    pub open spec fn hash_at(self, hardened: bool, index: int) -> Option<Bytes32> {
        let (start, hashes) = if hardened {
            (self.hardened_start, self.hardened)
        } else {
            (self.unhardened_start, self.unhardened)
        };
        if start <= index < start + hashes.len() {
            Some(hashes[index - start])
        } else {
            None
        }
    }
}

impl View for KeyMaterial {
    type V = KeysView;

    open spec fn view(&self) -> KeysView {
        KeysView {
            unhardened_start: self.unhardened.start,
            unhardened: self.unhardened.hashes@,
            hardened_start: self.hardened.start,
            hardened: self.hardened.hashes@,
        }
    }
}

impl KeyMaterial {
    /// Key material that gives no hash at all: both ranges start at index
    /// 0 and hold nothing.
    pub fn empty() -> (keys: KeyMaterial)
        ensures
            keys@.unhardened_start == 0,
            keys@.unhardened == Seq::<Bytes32>::empty(),
            keys@.hardened_start == 0,
            keys@.hardened == Seq::<Bytes32>::empty(),
            forall|hardened: bool, index: int| keys@.hash_at(hardened, index) is None,
    {
        KeyMaterial {
            unhardened: DerivedRange { start: 0, hashes: Vec::new() },
            hardened: DerivedRange { start: 0, hashes: Vec::new() },
        }
    }

    /// The puzzle hash derived at `index` of a chain, if the keys give one.
    pub fn hash_at(&self, hardened: bool, index: u32) -> (hash: Option<Bytes32>)
        ensures
            hash == self@.hash_at(hardened, index as int),
    {
        let range = if hardened {
            &self.hardened
        } else {
            &self.unhardened
        };
        if index >= range.start && ((index - range.start) as usize) < range.hashes.len() {
            Some(range.hashes[(index - range.start) as usize])
        } else {
            None
        }
    }
}

/// The records of one chain are dense from 0: the record at place `i` has
/// index `i`, and all carry the chain's flag.
pub open spec fn chain_wf(records: Seq<DerivationRecord>, hardened: bool) -> bool {
    forall|i: int|
        0 <= i < records.len() ==> (#[trigger] records[i]).index == i && records[i].hardened
            == hardened
}

/// The highest used index of a chain, if any index is used.
pub open spec fn max_used(records: Seq<DerivationRecord>) -> Option<int>
    decreases records.len(),
{
    if records.len() == 0 {
        None
    } else if records.last().used {
        Some(records.len() - 1)
    } else {
        max_used(records.drop_last())
    }
}

/// The index shown as the next receive address of a chain: one past the
/// highest used index, or 0 if none is used, but never past the highest
/// allocated index. `None` if nothing is allocated.
pub open spec fn receive_index(records: Seq<DerivationRecord>) -> Option<int> {
    if records.len() == 0 {
        None
    } else {
        let next = match max_used(records) {
            Some(m) => m + 1,
            None => 0,
        };
        Some(if next > records.len() - 1 { records.len() - 1 } else { next })
    }
}

/// A chain with the record at `index` marked used; unchanged if no such
/// index is allocated.
pub open spec fn mark(records: Seq<DerivationRecord>, index: int) -> Seq<DerivationRecord> {
    if 0 <= index < records.len() {
        records.update(index, DerivationRecord { used: true, ..records[index] })
    } else {
        records
    }
}

/// The record that extends a chain by `puzzle_hash`.
pub open spec fn next_record(
    records: Seq<DerivationRecord>,
    hardened: bool,
    puzzle_hash: Bytes32,
) -> DerivationRecord {
    DerivationRecord { index: records.len() as u32, puzzle_hash, hardened, used: false }
}

/// A chain extended by one record for each of `hashes`, in turn.
pub open spec fn extend(
    records: Seq<DerivationRecord>,
    hardened: bool,
    hashes: Seq<Bytes32>,
) -> Seq<DerivationRecord>
    decreases hashes.len(),
{
    if hashes.len() == 0 {
        records
    } else {
        let before = extend(records, hardened, hashes.drop_last());
        before.push(next_record(before, hardened, hashes.last()))
    }
}

/// The lowest place of a chain that holds `puzzle_hash`.
pub open spec fn first_with(records: Seq<DerivationRecord>, puzzle_hash: Bytes32) -> Option<int>
    decreases records.len(),
{
    if records.len() == 0 {
        None
    } else {
        match first_with(records.drop_last(), puzzle_hash) {
            Some(i) => Some(i),
            None => if records.last().puzzle_hash == puzzle_hash {
                Some(records.len() - 1)
            } else {
                None
            },
        }
    }
}

/// What `first_with` picks: a place that holds the hash, with none before
/// it that does, or `None` exactly when no place holds it.
pub proof fn lemma_first_with(records: Seq<DerivationRecord>, puzzle_hash: Bytes32)
    ensures
        first_with(records, puzzle_hash) matches Some(i) ==> 0 <= i < records.len()
            && records[i].puzzle_hash == puzzle_hash && forall|j: int|
            0 <= j < i ==> (#[trigger] records[j]).puzzle_hash != puzzle_hash,
        first_with(records, puzzle_hash) is None ==> forall|j: int|
            0 <= j < records.len() ==> (#[trigger] records[j]).puzzle_hash != puzzle_hash,
    decreases records.len(),
{
    if records.len() > 0 {
        let shorter = records.drop_last();
        lemma_first_with(shorter, puzzle_hash);
        assert forall|j: int| 0 <= j < shorter.len() implies shorter[j] == records[j] by {}
        match first_with(shorter, puzzle_hash) {
            Some(i) => {
                assert forall|j: int| 0 <= j < i implies (#[trigger] records[j]).puzzle_hash
                    != puzzle_hash by {
                    assert(shorter[j].puzzle_hash != puzzle_hash);
                }
            },
            None => {
                assert forall|j: int| 0 <= j < shorter.len() implies (#[trigger] records[j]).puzzle_hash
                    != puzzle_hash by {
                    assert(shorter[j].puzzle_hash != puzzle_hash);
                }
            },
        }
    }
}

/// A place that holds the hash, with none before it that does, is what
/// `first_with` picks.
pub proof fn lemma_first_with_is(records: Seq<DerivationRecord>, puzzle_hash: Bytes32, i: int)
    requires
        0 <= i < records.len(),
        records[i].puzzle_hash == puzzle_hash,
        forall|j: int| 0 <= j < i ==> (#[trigger] records[j]).puzzle_hash != puzzle_hash,
    ensures
        first_with(records, puzzle_hash) == Some(i),
{
    lemma_first_with(records, puzzle_hash);
    match first_with(records, puzzle_hash) {
        Some(k) => {
            if k < i {
                assert(records[k].puzzle_hash != puzzle_hash);
            } else if i < k {
                assert(records[i].puzzle_hash != puzzle_hash);
            }
        },
        None => {
            assert(records[i].puzzle_hash != puzzle_hash);
        },
    }
}

/// What `max_used` picks: a used index with no used index above it, or
/// `None` exactly when no index is used.
pub proof fn lemma_max_used(records: Seq<DerivationRecord>)
    ensures
        max_used(records) matches Some(m) ==> 0 <= m < records.len() && records[m].used
            && forall|j: int| m < j < records.len() ==> !(#[trigger] records[j]).used,
        max_used(records) is None ==> forall|j: int|
            0 <= j < records.len() ==> !(#[trigger] records[j]).used,
    decreases records.len(),
{
    if records.len() > 0 && !records.last().used {
        let shorter = records.drop_last();
        lemma_max_used(shorter);
        assert forall|j: int| 0 <= j < shorter.len() implies shorter[j] == records[j] by {}
        match max_used(shorter) {
            Some(m) => {
                assert forall|j: int| m < j < records.len() implies !(#[trigger] records[j]).used by {
                    if j < shorter.len() {
                        assert(!shorter[j].used);
                    }
                }
            },
            None => {
                assert forall|j: int| 0 <= j < records.len() implies !(#[trigger] records[j]).used by {
                    if j < shorter.len() {
                        assert(!shorter[j].used);
                    }
                }
            },
        }
    }
}

/// A used index with none used above it is what `max_used` picks.
pub proof fn lemma_max_used_is(records: Seq<DerivationRecord>, m: int)
    requires
        0 <= m < records.len(),
        records[m].used,
        forall|j: int| m < j < records.len() ==> !(#[trigger] records[j]).used,
    ensures
        max_used(records) == Some(m),
{
    lemma_max_used(records);
    match max_used(records) {
        Some(k) => {
            if k < m {
                assert(!records[m].used);
            } else if m < k {
                assert(!records[k].used);
            }
        },
        None => {
            assert(!records[m].used);
        },
    }
}

/// A copy of a chain.
fn copy_records(records: &Vec<DerivationRecord>) -> (copy: Vec<DerivationRecord>)
    ensures
        copy@ == records@,
{
    let mut copy: Vec<DerivationRecord> = Vec::new();
    let mut i: usize = 0;
    while i < records.len()
        invariant
            i <= records.len(),
            copy@ == records@.take(i as int),
        decreases records.len() - i,
    {
        copy.push(records[i]);
        assert(records@.take(i + 1) == records@.take(i as int).push(records@[i as int]));
        i += 1;
    }
    assert(records@.take(records@.len() as int) == records@);
    copy
}

/// What the two chains hold.
pub struct DerivationView {
    pub unhardened: Seq<DerivationRecord>,
    pub hardened: Seq<DerivationRecord>,
}

impl DerivationView {
    /// The records of one chain, in index order.
    pub open spec fn chain(self, hardened: bool) -> Seq<DerivationRecord> {
        if hardened {
            self.hardened
        } else {
            self.unhardened
        }
    }

    /// Both chains are dense from 0.
    pub open spec fn wf(self) -> bool {
        chain_wf(self.unhardened, false) && chain_wf(self.hardened, true)
    }

    /// These chains with one of them replaced.
    pub open spec fn with_chain(self, hardened: bool, records: Seq<DerivationRecord>) -> Self {
        if hardened {
            DerivationView { unhardened: self.unhardened, hardened: records }
        } else {
            DerivationView { unhardened: records, hardened: self.hardened }
        }
    }

    /// The chains after `allocate_next` derived `puzzle_hash`.
    pub open spec fn allocate_next(self, hardened: bool, puzzle_hash: Bytes32) -> Self {
        let records = self.chain(hardened);
        self.with_chain(hardened, records.push(next_record(records, hardened, puzzle_hash)))
    }

    /// The chains after one `allocate_next` for each of `hashes`, in turn.
    pub open spec fn allocate_all(self, hardened: bool, hashes: Seq<Bytes32>) -> Self {
        self.with_chain(hardened, extend(self.chain(hardened), hardened, hashes))
    }

    /// The chains after `mark_used`.
    pub open spec fn mark_used(self, index: u32, hardened: bool) -> Self {
        self.with_chain(hardened, mark(self.chain(hardened), index as int))
    }

    /// What `current_receive_index` answers.
    pub open spec fn current_receive_index(self, hardened: bool) -> Option<int> {
        receive_index(self.chain(hardened))
    }

    /// The chain and index at which `puzzle_hash` was derived: on the
    /// unhardened chain if it occurs there, and at the lowest index of the
    /// chain it occurs on.
    pub open spec fn place_of(self, puzzle_hash: Bytes32) -> Option<(bool, u32)> {
        match first_with(self.unhardened, puzzle_hash) {
            Some(i) => Some((false, i as u32)),
            None => match first_with(self.hardened, puzzle_hash) {
                Some(i) => Some((true, i as u32)),
                None => None,
            },
        }
    }

    /// Whether `puzzle_hash` was derived at some index of either chain.
    pub open spec fn owns(self, puzzle_hash: Bytes32) -> bool {
        exists|hardened: bool, i: int|
            0 <= i < self.chain(hardened).len() && (#[trigger] self.chain(hardened)[i]).puzzle_hash
                == puzzle_hash
    }
}

/// The derivation records of a wallet, one dense chain of indices for
/// unhardened keys and one for hardened keys.
pub struct AddressDerivation {
    unhardened: Vec<DerivationRecord>,
    hardened: Vec<DerivationRecord>,
}

impl View for AddressDerivation {
    type V = DerivationView;

    closed spec fn view(&self) -> DerivationView {
        DerivationView { unhardened: self.unhardened@, hardened: self.hardened@ }
    }
}

impl AddressDerivation {
    /// The invariant: both chains are dense from 0.
    pub open spec fn wf(&self) -> bool {
        self@.wf()
    }

    /// No index allocated on either chain.
    pub fn new() -> (derivation: AddressDerivation)
        ensures
            derivation.wf(),
            derivation@.unhardened == Seq::<DerivationRecord>::empty(),
            derivation@.hardened == Seq::<DerivationRecord>::empty(),
    {
        AddressDerivation { unhardened: Vec::new(), hardened: Vec::new() }
    }

    /// The records of one chain.
    fn records(&self, hardened: bool) -> (records: &Vec<DerivationRecord>)
        ensures
            records@ == self@.chain(hardened),
    {
        if hardened {
            &self.hardened
        } else {
            &self.unhardened
        }
    }

    /// How many indices are allocated on a chain; the next free index.
    pub fn allocated(&self, hardened: bool) -> (count: usize)
        ensures
            count == self@.chain(hardened).len(),
    {
        self.records(hardened).len()
    }

    /// The record at `index`, if that index is allocated.
    pub fn record(&self, index: u32, hardened: bool) -> (record: Option<DerivationRecord>)
        ensures
            record == if index < self@.chain(hardened).len() {
                Some(self@.chain(hardened)[index as int])
            } else {
                None
            },
    {
        let records = self.records(hardened);
        if (index as usize) < records.len() {
            Some(records[index as usize])
        } else {
            None
        }
    }

    /// Extends a chain by one index, recorded as unused with the puzzle
    /// hash that the keys give for it. Fails with `KeyDerivationError`,
    /// changing nothing, if the keys give none.
    pub fn allocate_next(&mut self, hardened: bool, keys: &KeyMaterial) -> (allocated: Result<
        DerivationRecord,
        Error,
    >)
        requires
            old(self).wf(),
            old(self)@.chain(hardened).len() <= u32::MAX,
        ensures
            final(self).wf(),
            match keys@.hash_at(hardened, old(self)@.chain(hardened).len() as int) {
                Some(puzzle_hash) => allocated == Ok::<DerivationRecord, Error>(
                    next_record(old(self)@.chain(hardened), hardened, puzzle_hash),
                ) && final(self)@ == old(self)@.allocate_next(hardened, puzzle_hash),
                None => allocated == Err::<DerivationRecord, Error>(Error::KeyDerivationError)
                    && final(self)@ == old(self)@,
            },
    {
        let index = self.allocated(hardened) as u32;
        match keys.hash_at(hardened, index) {
            Some(puzzle_hash) => {
                let record = DerivationRecord { index, puzzle_hash, hardened, used: false };
                if hardened {
                    self.hardened.push(record);
                } else {
                    self.unhardened.push(record);
                }
                Ok(record)
            },
            None => Err(Error::KeyDerivationError),
        }
    }

    /// Marks the record at `index` used; nothing changes if it is used
    /// already. Says whether that index is allocated.
    pub fn mark_used(&mut self, index: u32, hardened: bool) -> (known: bool)
        requires
            old(self).wf(),
        ensures
            final(self).wf(),
            final(self)@ == old(self)@.mark_used(index, hardened),
            known == (index < old(self)@.chain(hardened).len()),
    {
        let i = index as usize;
        if hardened {
            if i < self.hardened.len() {
                let record = self.hardened[i];
                self.hardened.set(i, DerivationRecord { used: true, ..record });
                true
            } else {
                false
            }
        } else {
            if i < self.unhardened.len() {
                let record = self.unhardened[i];
                self.unhardened.set(i, DerivationRecord { used: true, ..record });
                true
            } else {
                false
            }
        }
    }

    /// The highest used index of a chain.
    pub fn max_used_index(&self, hardened: bool) -> (highest: Option<u32>)
        requires
            self.wf(),
        ensures
            highest matches Some(m) ==> max_used(self@.chain(hardened)) == Some(m as int),
            highest is None ==> max_used(self@.chain(hardened)) is None,
    {
        let records = self.records(hardened);
        let mut i: usize = records.len();
        while i > 0
            invariant
                i <= records.len(),
                records@ == self@.chain(hardened),
                self.wf(),
                forall|j: int| i <= j < records.len() ==> !(#[trigger] records@[j]).used,
            decreases i,
        {
            i -= 1;
            if records[i].used {
                proof {
                    lemma_max_used_is(records@, i as int);
                }
                return Some(records[i].index);
            }
        }
        proof {
            lemma_max_used(records@);
        }
        None
    }

    /// The index to show as the next receive address: one past the highest
    /// used index (0 if none is used), held back to the highest allocated
    /// index. `None` if nothing is allocated on the chain.
    pub fn current_receive_index(&self, hardened: bool) -> (index: Option<u32>)
        requires
            self.wf(),
        ensures
            index matches Some(i) ==> self@.current_receive_index(hardened) == Some(i as int),
            index is None ==> self@.current_receive_index(hardened) is None,
    {
        let count = self.allocated(hardened);
        if count == 0 {
            return None;
        }
        proof {
            lemma_max_used(self@.chain(hardened));
            assert(self@.chain(hardened)[count - 1].index == count - 1);
        }
        let highest: u32 = (count - 1) as u32;
        match self.max_used_index(hardened) {
            Some(m) => {
                if m < highest {
                    Some(m + 1)
                } else {
                    Some(highest)
                }
            },
            None => Some(0),
        }
    }

    /// A copy of these records.
    pub fn duplicate(&self) -> (copy: AddressDerivation)
        ensures
            copy@ == self@,
    {
        AddressDerivation {
            unhardened: copy_records(&self.unhardened),
            hardened: copy_records(&self.hardened),
        }
    }

    /// Whether `puzzle_hash` was derived on either chain.
    pub fn owns(&self, puzzle_hash: &Bytes32) -> (owned: bool)
        requires
            self.wf(),
        ensures
            owned == self@.owns(*puzzle_hash),
    {
        self.locate(puzzle_hash).is_some()
    }

    /// The chain and index at which `puzzle_hash` was derived, looking at
    /// the unhardened chain first and at low indices first.
    pub fn locate(&self, puzzle_hash: &Bytes32) -> (place: Option<(bool, u32)>)
        requires
            self.wf(),
        ensures
            place == self@.place_of(*puzzle_hash),
            place is Some <==> self@.owns(*puzzle_hash),
    {
        let mut i: usize = 0;
        while i < self.unhardened.len()
            invariant
                self.wf(),
                i <= self.unhardened.len(),
                forall|j: int| 0 <= j < i ==> (#[trigger] self.unhardened@[j]).puzzle_hash != *puzzle_hash,
            decreases self.unhardened.len() - i,
        {
            if self.unhardened[i].puzzle_hash.same(puzzle_hash) {
                proof {
                    lemma_first_with_is(self.unhardened@, *puzzle_hash, i as int);
                    assert(self@.chain(false)[i as int].puzzle_hash == *puzzle_hash);
                }
                return Some((false, self.unhardened[i].index));
            }
            i += 1;
        }
        let mut k: usize = 0;
        while k < self.hardened.len()
            invariant
                self.wf(),
                k <= self.hardened.len(),
                forall|j: int|
                    0 <= j < self.unhardened.len() ==> (#[trigger] self.unhardened@[j]).puzzle_hash
                        != *puzzle_hash,
                forall|j: int| 0 <= j < k ==> (#[trigger] self.hardened@[j]).puzzle_hash != *puzzle_hash,
            decreases self.hardened.len() - k,
        {
            if self.hardened[k].puzzle_hash.same(puzzle_hash) {
                proof {
                    lemma_first_with(self.unhardened@, *puzzle_hash);
                    lemma_first_with_is(self.hardened@, *puzzle_hash, k as int);
                    assert(self@.chain(true)[k as int].puzzle_hash == *puzzle_hash);
                }
                return Some((true, self.hardened[k].index));
            }
            k += 1;
        }
        proof {
            lemma_first_with(self.unhardened@, *puzzle_hash);
            lemma_first_with(self.hardened@, *puzzle_hash);
        }
        assert(!self@.owns(*puzzle_hash)) by {
            if self@.owns(*puzzle_hash) {
                let (h, j) = choose|h: bool, j: int|
                    0 <= j < self@.chain(h).len() && (#[trigger] self@.chain(h)[j]).puzzle_hash
                        == *puzzle_hash;
                if h {
                    assert(self.hardened@[j].puzzle_hash != *puzzle_hash);
                } else {
                    assert(self.unhardened@[j].puzzle_hash != *puzzle_hash);
                }
            }
        }
        None
    }
}

/// However many times `allocate_next` is called on a chain, its indices
/// stay the contiguous range from 0: the record at place `i` has index `i`,
/// so no index is skipped and none occurs twice. The other chain is left
/// as it was.
pub proof fn law_allocation_contiguous(
    derivation: DerivationView,
    hardened: bool,
    hashes: Seq<Bytes32>,
)
    requires
        derivation.wf(),
        derivation.chain(hardened).len() + hashes.len() <= u32::MAX + 1,
    ensures
        derivation.allocate_all(hardened, hashes).wf(),
        derivation.allocate_all(hardened, hashes).chain(hardened).len() == derivation.chain(
            hardened,
        ).len() + hashes.len(),
        forall|i: int|
            0 <= i < derivation.chain(hardened).len() + hashes.len() ==> (
            #[trigger] derivation.allocate_all(hardened, hashes).chain(hardened)[i]).index == i,
        forall|i: int|
            0 <= i < derivation.chain(hardened).len() ==> derivation.allocate_all(
                hardened,
                hashes,
            ).chain(hardened)[i] == derivation.chain(hardened)[i],
        derivation.allocate_all(hardened, hashes).chain(!hardened) == derivation.chain(!hardened),
        hashes.len() > 0 ==> derivation.allocate_all(hardened, hashes)
            == derivation.allocate_all(hardened, hashes.drop_last()).allocate_next(
            hardened,
            hashes.last(),
        ),
{
    lemma_extend(derivation.chain(hardened), hardened, hashes);
    if hashes.len() > 0 {
        lemma_extend(derivation.chain(hardened), hardened, hashes.drop_last());
    }
}

/// Extending a dense chain keeps it dense, keeps what it held, and adds one
/// unused record for each hash.
pub proof fn lemma_extend(records: Seq<DerivationRecord>, hardened: bool, hashes: Seq<Bytes32>)
    requires
        chain_wf(records, hardened),
        records.len() + hashes.len() <= u32::MAX + 1,
    ensures
        chain_wf(extend(records, hardened, hashes), hardened),
        extend(records, hardened, hashes).len() == records.len() + hashes.len(),
        forall|i: int|
            0 <= i < records.len() ==> (#[trigger] extend(records, hardened, hashes)[i])
                == records[i],
        forall|i: int|
            records.len() <= i < records.len() + hashes.len() ==> (#[trigger] extend(
                records,
                hardened,
                hashes,
            )[i]) == (DerivationRecord {
                index: i as u32,
                puzzle_hash: hashes[i - records.len()],
                hardened,
                used: false,
            }),
    decreases hashes.len(),
{
    if hashes.len() > 0 {
        lemma_extend(records, hardened, hashes.drop_last());
    }
}

/// Marking index `i` used, where no higher index is used, makes the
/// receive index `i + 1`, held back to the highest allocated index.
pub proof fn law_receive_index_after_use(derivation: DerivationView, hardened: bool, i: u32)
    requires
        derivation.wf(),
        i < derivation.chain(hardened).len(),
        forall|j: int|
            i < j < derivation.chain(hardened).len() ==> !(#[trigger] derivation.chain(
                hardened,
            )[j]).used,
    ensures
        derivation.mark_used(i, hardened).wf(),
        derivation.mark_used(i, hardened).current_receive_index(hardened) == Some(
            if i + 1 > derivation.chain(hardened).len() - 1 {
                derivation.chain(hardened).len() - 1
            } else {
                i + 1
            },
        ),
{
    let marked = derivation.mark_used(i, hardened).chain(hardened);
    assert forall|j: int| i < j < marked.len() implies !(#[trigger] marked[j]).used by {
        assert(!derivation.chain(hardened)[j].used);
    }
    lemma_max_used_is(marked, i as int);
}

/// Marking an index used does not move any puzzle hash.
pub proof fn lemma_place_after_mark(
    derivation: DerivationView,
    puzzle_hash: Bytes32,
    index: u32,
    hardened: bool,
)
    ensures
        derivation.mark_used(index, hardened).place_of(puzzle_hash) == derivation.place_of(
            puzzle_hash,
        ),
{
    lemma_first_with_after_mark(derivation.unhardened, puzzle_hash, index as int);
    lemma_first_with_after_mark(derivation.hardened, puzzle_hash, index as int);
}

/// Marking a record used does not change where a puzzle hash is first found.
pub proof fn lemma_first_with_after_mark(
    records: Seq<DerivationRecord>,
    puzzle_hash: Bytes32,
    index: int,
)
    ensures
        first_with(mark(records, index), puzzle_hash) == first_with(records, puzzle_hash),
{
    let marked = mark(records, index);
    lemma_first_with(records, puzzle_hash);
    match first_with(records, puzzle_hash) {
        Some(i) => {
            assert forall|j: int| 0 <= j < i implies (#[trigger] marked[j]).puzzle_hash
                != puzzle_hash by {
                assert(records[j].puzzle_hash != puzzle_hash);
            }
            lemma_first_with_is(marked, puzzle_hash, i);
        },
        None => {
            lemma_first_with(marked, puzzle_hash);
            if first_with(marked, puzzle_hash) is Some {
                let k = first_with(marked, puzzle_hash)->Some_0;
                assert(records[k].puzzle_hash != puzzle_hash);
            }
        },
    }
}

/// Marking an index used twice is the same as marking it once.
pub proof fn law_mark_used_idempotent(derivation: DerivationView, hardened: bool, i: u32)
    ensures
        derivation.mark_used(i, hardened).mark_used(i, hardened) == derivation.mark_used(
            i,
            hardened,
        ),
{
    let once = mark(derivation.chain(hardened), i as int);
    assert(mark(once, i as int) =~= once);
}

} // verus!

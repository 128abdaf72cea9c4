//! Rolling table of per-slot block hashes, indexed by commitment level.
use vstd::prelude::*;
use crate::geyser::CommitmentLevel;

verus! {

/// Number of recent block hashes a transaction may refer to.
pub const MAX_RECENT_BLOCKHASHES: usize = 300;

/// Finalized entries kept before the oldest entries are dropped.
pub const MAX_FINALIZED_ENTRIES: usize = MAX_RECENT_BLOCKHASHES + 10;

/// Hash, height and commitment of one slot.
#[derive(Clone, Copy, Debug)]
pub struct LatestBlockhashSlot {
    pub hash: [u8; 32],
    pub height: u64,
    pub commitment: CommitmentLevel,
}

/// A failed blockhash or slot lookup.
#[derive(Clone, Copy, Debug, PartialEq, Eq, Structural)]
pub enum LookupError {
    /// The rollback asked for is over `MAX_RECENT_BLOCKHASHES`.
    RollbackTooLarge,
    /// The latest slot is below the caller's minimum context slot.
    MinContextSlotNotReached { context_slot: u64 },
    /// The latest slot for the commitment has no entry.
    SlotMissing,
    /// The downward walk ran out of entries.
    RollbackFailed,
}

/// A resolved blockhash.
#[derive(Clone, Copy, Debug)]
pub struct BlockhashAnswer {
    pub slot: u64,
    pub hash: [u8; 32],
    pub last_valid_block_height: u64,
}

/// Slots in strictly ascending order.
pub open spec fn ascending(s: Seq<(u64, LatestBlockhashSlot)>) -> bool {
    forall|i: int, j: int| 0 <= i < j < s.len() ==> s[i].0 < s[j].0
}

/// The slot-to-entry map that a sequence of entries stands for.
pub open spec fn entry_map(s: Seq<(u64, LatestBlockhashSlot)>) -> Map<u64, LatestBlockhashSlot> {
    Map::new(
        |k: u64| exists|i: int| 0 <= i < s.len() && s[i].0 == k,
        |k: u64| s[choose|i: int| 0 <= i < s.len() && s[i].0 == k].1,
    )
}

/// Number of Finalized entries.
pub open spec fn finalized_count(s: Seq<(u64, LatestBlockhashSlot)>) -> nat
    decreases s.len(),
{
    if s.len() == 0 {
        0
    } else {
        finalized_count(s.drop_last()) + if s.last().1.commitment == CommitmentLevel::Finalized {
            1nat
        } else {
            0nat
        }
    }
}

/// `k` is the greatest slot of the store below `s` whose commitment is `c`.
pub open spec fn is_prev_match(m: Map<u64, LatestBlockhashSlot>, s: u64, c: CommitmentLevel, k: u64) -> bool {
    &&& k < s
    &&& m.contains_key(k)
    &&& m[k].commitment == c
    &&& forall|j: u64| k < j < s && #[trigger] m.contains_key(j) ==> m[j].commitment != c
}

/// The greatest slot of the store below `s` whose commitment is `c`, if any.
pub open spec fn prev_match(m: Map<u64, LatestBlockhashSlot>, s: u64, c: CommitmentLevel) -> Option<u64> {
    if exists|k: u64| is_prev_match(m, s, c, k) {
        Some(choose|k: u64| is_prev_match(m, s, c, k))
    } else {
        None
    }
}

/// The slot reached from `s` after `steps` rollback steps at commitment `c`.
pub open spec fn rollback_walk(m: Map<u64, LatestBlockhashSlot>, s: u64, c: CommitmentLevel, steps: nat) -> Option<u64>
    decreases steps,
{
    if steps == 0 {
        Some(s)
    } else {
        match rollback_walk(m, s, c, (steps - 1) as nat) {
            Some(t) => prev_match(m, t, c),
            None => None,
        }
    }
}

/// `height + MAX_RECENT_BLOCKHASHES`, wrapping at 2^64.
pub open spec fn last_valid_height(height: u64) -> u64 {
    if height + 300 <= u64::MAX {
        (height + 300) as u64
    } else {
        (height + 300 - 0x1_0000_0000_0000_0000) as u64
    }
}

/// `s` with the commitment of `slot`'s entry set to `c`.
pub open spec fn with_commitment(s: Seq<(u64, LatestBlockhashSlot)>, slot: u64, c: CommitmentLevel) -> Seq<(u64, LatestBlockhashSlot)> {
    s.map_values(|e: (u64, LatestBlockhashSlot)| if e.0 == slot {
        (e.0, LatestBlockhashSlot { hash: e.1.hash, height: e.1.height, commitment: c })
    } else {
        e
    })
}

/// `m` with the commitment of `slot`'s entry, if any, set to `c`.
pub open spec fn with_commitment_map(m: Map<u64, LatestBlockhashSlot>, slot: u64, c: CommitmentLevel) -> Map<u64, LatestBlockhashSlot> {
    if m.contains_key(slot) {
        m.insert(slot, LatestBlockhashSlot { hash: m[slot].hash, height: m[slot].height, commitment: c })
    } else {
        m
    }
}

/// Per-slot hashes with the latest slot seen at each commitment.
#[derive(Debug)]
pub struct LatestBlockhashStorage {
    pub slots: Vec<(u64, LatestBlockhashSlot)>,
    pub finalized_total: usize,
    pub slot_processed: u64,
    pub slot_confirmed: u64,
    pub slot_finalized: u64,
}

impl LatestBlockhashStorage {
    pub open spec fn wf(&self) -> bool {
        &&& ascending(self.slots@)
        &&& self.finalized_total == finalized_count(self.slots@)
    }

    pub open spec fn view_map(&self) -> Map<u64, LatestBlockhashSlot> {
        entry_map(self.slots@)
    }

    /// The cached latest slot for `c`.
    pub open spec fn latest(&self, c: CommitmentLevel) -> u64 {
        match c {
            CommitmentLevel::Processed => self.slot_processed,
            CommitmentLevel::Confirmed => self.slot_confirmed,
            CommitmentLevel::Finalized => self.slot_finalized,
        }
    }

    /// `new` is this store after `update_commitment(slot, c)`: the entry's
    /// commitment set, the cached latest slots advanced, and the oldest
    /// entries dropped while more than `MAX_FINALIZED_ENTRIES` are Finalized.
    pub open spec fn commitment_applied(&self, new: Self, slot: u64, c: CommitmentLevel) -> bool {
        let mid = with_commitment(self.slots@, slot, c);
        let target = with_commitment_map(self.view_map(), slot, c);
        let n = new.slots@.len();
        &&& n <= mid.len()
        &&& new.slots@ == mid.subrange(mid.len() - n, mid.len() as int)
        &&& new.finalized_total <= MAX_FINALIZED_ENTRIES
        &&& n < mid.len() ==> finalized_count(mid.subrange(mid.len() - n - 1, mid.len() as int)) > MAX_FINALIZED_ENTRIES
        &&& forall|k: u64| #[trigger] new.view_map().contains_key(k) ==> target.contains_key(k) && new.view_map()[k] == target[k]
        &&& finalized_count(mid) <= MAX_FINALIZED_ENTRIES ==> new.view_map() == target
        &&& self.finalized_total < MAX_FINALIZED_ENTRIES ==> new.view_map() == target
        &&& self.view_map().contains_key(slot) ==> {
            &&& new.slot_processed == if c == CommitmentLevel::Processed && slot > self.slot_processed {
                slot
            } else {
                self.slot_processed
            }
            &&& new.slot_confirmed == if c == CommitmentLevel::Confirmed {
                slot
            } else {
                self.slot_confirmed
            }
            &&& new.slot_finalized == if c == CommitmentLevel::Finalized {
                slot
            } else {
                self.slot_finalized
            }
        }
        &&& !self.view_map().contains_key(slot) ==> {
            &&& new.slot_processed == self.slot_processed
            &&& new.slot_confirmed == self.slot_confirmed
            &&& new.slot_finalized == self.slot_finalized
        }
    }

    /// `new` is this store after `push_block(slot, height, hash)`.
    pub open spec fn block_pushed(&self, new: Self, slot: u64, height: u64, hash: [u8; 32]) -> bool {
        &&& new.view_map() == self.view_map().insert(
            slot,
            LatestBlockhashSlot { hash, height, commitment: CommitmentLevel::Processed },
        )
        &&& new.slot_processed == self.slot_processed
        &&& new.slot_confirmed == self.slot_confirmed
        &&& new.slot_finalized == self.slot_finalized
        &&& new.finalized_total <= self.finalized_total
    }

    /// An empty store.
    pub fn new() -> (r: Self)
        ensures
            r.wf(),
            r.slots@.len() == 0,
            r.finalized_total == 0,
            r.slot_processed == 0 && r.slot_confirmed == 0 && r.slot_finalized == 0,
    {
        LatestBlockhashStorage {
            slots: Vec::new(),
            finalized_total: 0,
            slot_processed: 0,
            slot_confirmed: 0,
            slot_finalized: 0,
        }
    }

    /// The cached latest slot for `commitment`.
    pub fn latest_slot(&self, commitment: CommitmentLevel) -> (r: u64)
        ensures
            r == self.latest(commitment),
    {
        match commitment {
            CommitmentLevel::Processed => self.slot_processed,
            CommitmentLevel::Confirmed => self.slot_confirmed,
            CommitmentLevel::Finalized => self.slot_finalized,
        }
    }

    /// Inserts or overwrites the entry of `slot`, at commitment Processed.
    pub fn push_block(&mut self, slot: u64, height: u64, hash: [u8; 32])
        requires
            old(self).wf(),
        ensures
            final(self).wf(),
            old(self).block_pushed(*final(self), slot, height, hash),
    {
        let entry = LatestBlockhashSlot { hash, height, commitment: CommitmentLevel::Processed };
        let ghost before = self.slots@;
        match self.position(slot) {
            Ok(i) => {
                let was_finalized = self.slots[i].1.commitment == CommitmentLevel::Finalized;
                proof {
                    lemma_count_update(before, i as int, (slot, entry));
                    lemma_map_update(before, i as int, (slot, entry));
                }
                self.slots.set(i, (slot, entry));
                if was_finalized {
                    self.finalized_total = self.finalized_total - 1;
                }
            },
            Err(i) => {
                proof {
                    lemma_count_insert(before, i as int, (slot, entry));
                    lemma_map_insert(before, i as int, (slot, entry));
                }
                self.slots.insert(i, (slot, entry));
            },
        }
    }

    /// Sets the commitment of `slot` if present, advances the cached latest
    /// slots, then drops the oldest entries while more than
    /// `MAX_FINALIZED_ENTRIES` entries are Finalized.
    pub fn update_commitment(&mut self, slot: u64, commitment: CommitmentLevel)
        requires
            old(self).wf(),
        ensures
            final(self).wf(),
            old(self).commitment_applied(*final(self), slot, commitment),
    {
        let ghost before = self.slots@;
        let ghost target = with_commitment_map(self.view_map(), slot, commitment);
        match self.position(slot) {
            Ok(i) => {
                let e = self.slots[i].1;
                let updated = LatestBlockhashSlot { hash: e.hash, height: e.height, commitment };
                proof {
                    lemma_count_update(before, i as int, (slot, updated));
                    lemma_map_update(before, i as int, (slot, updated));
                    lemma_count_le_len(before.update(i as int, (slot, updated)));
                    lemma_entry_at(before, i as int);
                    assert(before.len() == self.slots.len());
                }
                self.slots.set(i, (slot, updated));
                if e.commitment == CommitmentLevel::Finalized && commitment != CommitmentLevel::Finalized {
                    self.finalized_total = self.finalized_total - 1;
                } else if e.commitment != CommitmentLevel::Finalized && commitment == CommitmentLevel::Finalized {
                    self.finalized_total = self.finalized_total + 1;
                }
                if commitment == CommitmentLevel::Processed && slot > self.slot_processed {
                    self.slot_processed = slot;
                } else if commitment == CommitmentLevel::Confirmed {
                    self.slot_confirmed = slot;
                } else if commitment == CommitmentLevel::Finalized {
                    self.slot_finalized = slot;
                }
                proof {
                    assert forall|j: int| 0 <= j < before.len() && j != i implies before[j].0 != slot by {
                        if j < i {
                            assert(before[j].0 < before[i as int].0);
                        } else {
                            assert(before[j].0 > before[i as int].0);
                        }
                    }
                    assert(self.slots@ =~= with_commitment(before, slot, commitment));
                    assert(self.view_map() == target);
                }
            },
            Err(_) => {
                proof {
                    assert(self.slots@ =~= with_commitment(before, slot, commitment));
                    assert(!self.view_map().contains_key(slot));
                    assert(self.view_map() == target);
                }
            },
        }
        let ghost mid = self.slots@;
        assert(self.finalized_total <= old(self).finalized_total + 1);
        let ghost no_evict = finalized_count(mid) <= MAX_FINALIZED_ENTRIES;
        let ghost latest = (self.slot_processed, self.slot_confirmed, self.slot_finalized);
        while self.finalized_total > MAX_FINALIZED_ENTRIES
            invariant
                latest == (self.slot_processed, self.slot_confirmed, self.slot_finalized),
                no_evict == (finalized_count(mid) <= MAX_FINALIZED_ENTRIES),
                no_evict ==> self.slots@ == mid,
                ascending(self.slots@),
                self.finalized_total == finalized_count(self.slots@),
                self.slots@.len() <= mid.len(),
                self.slots@ == mid.subrange(mid.len() - self.slots@.len(), mid.len() as int),
                self.slots@.len() < mid.len() ==> finalized_count(
                    mid.subrange(mid.len() - self.slots@.len() - 1, mid.len() as int),
                ) > MAX_FINALIZED_ENTRIES,
            decreases self.slots@.len(),
        {
            proof {
                lemma_count_le_len(self.slots@);
                lemma_count_drop_first(self.slots@);
            }
            let ghost cur = self.slots@;
            let removed = self.slots.remove(0);
            if removed.1.commitment == CommitmentLevel::Finalized {
                self.finalized_total = self.finalized_total - 1;
            }
            proof {
                assert(self.slots@ =~= cur.drop_first());
                assert(self.slots@ =~= mid.subrange(mid.len() - self.slots@.len(), mid.len() as int));
            }
        }
        proof {
            let fin = self.slots@;
            let off = mid.len() - fin.len();
            assert(entry_map(mid) == target);
            assert forall|k: u64| #[trigger] self.view_map().contains_key(k) implies target.contains_key(k)
                && self.view_map()[k] == target[k] by {
                let y = choose|y: int| 0 <= y < fin.len() && fin[y].0 == k;
                lemma_entry_at(fin, y);
                assert(fin[y] == mid[y + off]);
                lemma_entry_at(mid, y + off);
            }
        }
    }

    /// Index of `slot` (`Ok`) or the index where it would be inserted (`Err`).
    fn position(&self, slot: u64) -> (r: Result<usize, usize>)
        requires
            self.wf(),
        ensures
            match r {
                Ok(i) => i < self.slots@.len() && self.slots@[i as int].0 == slot,
                Err(i) => i <= self.slots@.len()
                    && (forall|j: int| 0 <= j < i ==> self.slots@[j].0 < slot)
                    && (forall|j: int| i <= j < self.slots@.len() ==> self.slots@[j].0 > slot),
            },
    {
        let mut i: usize = 0;
        while i < self.slots.len()
            invariant
                self.wf(),
                0 <= i <= self.slots@.len(),
                forall|j: int| 0 <= j < i ==> self.slots@[j].0 < slot,
            decreases self.slots@.len() - i,
        {
            if self.slots[i].0 == slot {
                return Ok(i);
            }
            if self.slots[i].0 > slot {
                return Err(i);
            }
            i = i + 1;
        }
        Err(i)
    }

    /// Index of the greatest lower slot whose commitment is `c`.
    fn prev_index(&self, i: usize, c: CommitmentLevel) -> (r: Option<usize>)
        requires
            self.wf(),
            i < self.slots@.len(),
        ensures
            match r {
                Some(j) => j < i && prev_match(self.view_map(), self.slots@[i as int].0, c) == Some(self.slots@[j as int].0),
                None => prev_match(self.view_map(), self.slots@[i as int].0, c) is None,
            },
    {
        let ghost m = self.view_map();
        let ghost start = self.slots@[i as int].0;
        let mut j: usize = i;
        while j > 0
            invariant
                self.wf(),
                m == self.view_map(),
                start == self.slots@[i as int].0,
                j <= i < self.slots@.len(),
                forall|y: int| j <= y < i ==> self.slots@[y].1.commitment != c,
            decreases j,
        {
            j = j - 1;
            if self.slots[j].1.commitment == c {
                proof {
                    let k = self.slots@[j as int].0;
                    lemma_entry_at(self.slots@, j as int);
                    assert(k < start);
                    assert forall|x: u64| k < x < start && #[trigger] m.contains_key(x) implies m[x].commitment != c by {
                        let y = choose|y: int| 0 <= y < self.slots@.len() && self.slots@[y].0 == x;
                        lemma_entry_at(self.slots@, y);
                        if y <= j {
                            if y < j {
                                assert(self.slots@[y].0 < k);
                            }
                        } else if y >= i {
                            if y > i {
                                assert(self.slots@[y].0 > start);
                            }
                        }
                    }
                    assert(is_prev_match(m, start, c, k));
                    lemma_prev_match_unique(m, start, c, k);
                }
                return Some(j);
            }
        }
        proof {
            assert forall|k: u64| !is_prev_match(m, start, c, k) by {
                if is_prev_match(m, start, c, k) {
                    let y = choose|y: int| 0 <= y < self.slots@.len() && self.slots@[y].0 == k;
                    lemma_entry_at(self.slots@, y);
                    if y >= i {
                        if y > i {
                            assert(self.slots@[y].0 > start);
                        }
                    }
                }
            }
        }
        None
    }

    /// What `getLatestBlockhash` answers for `c`, `rollback` and the minimum
    /// context slot.
    pub open spec fn blockhash_outcome(&self, c: CommitmentLevel, rollback: usize, min_context_slot: Option<u64>) -> Result<BlockhashAnswer, LookupError> {
        let s = self.latest(c);
        let m = self.view_map();
        if rollback > MAX_RECENT_BLOCKHASHES {
            Err(LookupError::RollbackTooLarge)
        } else if min_context_slot is Some && s < min_context_slot->0 {
            Err(LookupError::MinContextSlotNotReached { context_slot: s })
        } else if !m.contains_key(s) {
            Err(LookupError::SlotMissing)
        } else {
            match rollback_walk(m, s, c, rollback as nat) {
                Some(t) => Ok(BlockhashAnswer {
                    slot: t,
                    hash: m[t].hash,
                    last_valid_block_height: last_valid_height(m[t].height),
                }),
                None => Err(LookupError::RollbackFailed),
            }
        }
    }

    /// What `getSlot` answers for `c` and the minimum context slot.
    pub open spec fn slot_outcome(&self, c: CommitmentLevel, min_context_slot: Option<u64>) -> Result<u64, LookupError> {
        let s = self.latest(c);
        if min_context_slot is Some && s < min_context_slot->0 {
            Err(LookupError::MinContextSlotNotReached { context_slot: s })
        } else {
            Ok(s)
        }
    }

    /// The latest slot at `commitment`, subject to the minimum context slot.
    pub fn get_slot(&self, commitment: CommitmentLevel, min_context_slot: Option<u64>) -> (r: Result<u64, LookupError>)
        ensures
            r == self.slot_outcome(commitment, min_context_slot),
    {
        let slot = self.latest_slot(commitment);
        match min_context_slot {
            Some(min) => if slot < min {
                return Err(LookupError::MinContextSlotNotReached { context_slot: slot });
            },
            None => {},
        }
        Ok(slot)
    }

    /// The block hash of the latest slot at `commitment`, rolled back by
    /// `rollback` slots of the same commitment.
    pub fn get_latest_blockhash(&self, commitment: CommitmentLevel, rollback: usize, min_context_slot: Option<u64>) -> (r: Result<BlockhashAnswer, LookupError>)
        requires
            self.wf(),
        ensures
            r == self.blockhash_outcome(commitment, rollback, min_context_slot),
    {
        let ghost m = self.view_map();
        if rollback > MAX_RECENT_BLOCKHASHES {
            return Err(LookupError::RollbackTooLarge);
        }
        let start = self.latest_slot(commitment);
        match min_context_slot {
            Some(min) => if start < min {
                return Err(LookupError::MinContextSlotNotReached { context_slot: start });
            },
            None => {},
        }
        let mut i = match self.position(start) {
            Ok(i) => i,
            Err(_) => {
                return Err(LookupError::SlotMissing);
            },
        };
        proof {
            lemma_entry_at(self.slots@, i as int);
        }
        let mut step: usize = 0;
        while step < rollback
            invariant
                self.wf(),
                m == self.view_map(),
                m.contains_key(start),
                start == self.latest(commitment),
                rollback <= MAX_RECENT_BLOCKHASHES,
                !(min_context_slot is Some && start < min_context_slot->0),
                step <= rollback,
                i < self.slots@.len(),
                rollback_walk(m, start, commitment, step as nat) == Some(self.slots@[i as int].0),
            decreases rollback - step,
        {
            match self.prev_index(i, commitment) {
                Some(j) => {
                    i = j;
                },
                None => {
                    proof {
                        assert(rollback_walk(m, start, commitment, (step + 1) as nat) is None);
                        lemma_walk_none_stays(m, start, commitment, (step + 1) as nat, rollback as nat);
                    }
                    return Err(LookupError::RollbackFailed);
                },
            }
            step = step + 1;
        }
        proof {
            lemma_entry_at(self.slots@, i as int);
        }
        let entry = self.slots[i].1;
        let height = entry.height;
        let last_valid_block_height = if height <= u64::MAX - 300 {
            height + 300
        } else {
            height - (u64::MAX - 299)
        };
        Ok(BlockhashAnswer { slot: self.slots[i].0, hash: entry.hash, last_valid_block_height })
    }
}

/// An entry of an ascending sequence is what the map holds for its slot.
pub proof fn lemma_entry_at(s: Seq<(u64, LatestBlockhashSlot)>, i: int)
    requires
        ascending(s),
        0 <= i < s.len(),
    ensures
        entry_map(s).contains_key(s[i].0),
        entry_map(s)[s[i].0] == s[i].1,
{
    let k = s[i].0;
    assert(exists|x: int| 0 <= x < s.len() && s[x].0 == k);
    let x = choose|x: int| 0 <= x < s.len() && s[x].0 == k;
    assert(x == i);
}

/// Once the walk has failed, longer walks fail too.
pub proof fn lemma_walk_none_stays(m: Map<u64, LatestBlockhashSlot>, s: u64, c: CommitmentLevel, a: nat, b: nat)
    requires
        a <= b,
        rollback_walk(m, s, c, a) is None,
    ensures
        rollback_walk(m, s, c, b) is None,
    decreases b - a,
{
    if a < b {
        lemma_walk_none_stays(m, s, c, a, (b - 1) as nat);
    }
}

/// Overwriting the entry of a slot keeps the order and replaces that slot's
/// value in the map.
pub proof fn lemma_map_update(s: Seq<(u64, LatestBlockhashSlot)>, i: int, e: (u64, LatestBlockhashSlot))
    requires
        ascending(s),
        0 <= i < s.len(),
        s[i].0 == e.0,
    ensures
        ascending(s.update(i, e)),
        entry_map(s.update(i, e)) == entry_map(s).insert(e.0, e.1),
{
    let s2 = s.update(i, e);
    let m = entry_map(s).insert(e.0, e.1);
    assert forall|k: u64| #[trigger] entry_map(s2).contains_key(k) == m.contains_key(k) by {
        if k == e.0 {
            assert(s2[i].0 == k);
        } else {
            if exists|x: int| 0 <= x < s.len() && s[x].0 == k {
                let x = choose|x: int| 0 <= x < s.len() && s[x].0 == k;
                assert(s2[x].0 == k);
            }
            if exists|x: int| 0 <= x < s2.len() && s2[x].0 == k {
                let x = choose|x: int| 0 <= x < s2.len() && s2[x].0 == k;
                assert(s[x].0 == k);
            }
        }
    }
    assert forall|k: u64| entry_map(s2).contains_key(k) implies #[trigger] entry_map(s2)[k] == m[k] by {
        let x = choose|x: int| 0 <= x < s2.len() && s2[x].0 == k;
        lemma_entry_at(s2, x);
        if k != e.0 {
            lemma_entry_at(s, x);
        }
    }
    assert(entry_map(s2) =~= m);
}

/// Inserting a new slot at its place keeps the order and adds it to the map.
pub proof fn lemma_map_insert(s: Seq<(u64, LatestBlockhashSlot)>, i: int, e: (u64, LatestBlockhashSlot))
    requires
        ascending(s),
        0 <= i <= s.len(),
        forall|j: int| 0 <= j < i ==> s[j].0 < e.0,
        forall|j: int| i <= j < s.len() ==> s[j].0 > e.0,
    ensures
        ascending(s.insert(i, e)),
        entry_map(s.insert(i, e)) == entry_map(s).insert(e.0, e.1),
{
    let s2 = s.insert(i, e);
    let m = entry_map(s).insert(e.0, e.1);
    assert forall|a: int, b: int| 0 <= a < b < s2.len() implies s2[a].0 < s2[b].0 by {
        if a < i && b > i {
            assert(s2[b] == s[b - 1]);
        }
    }
    assert forall|k: u64| #[trigger] entry_map(s2).contains_key(k) == m.contains_key(k) by {
        if k == e.0 {
            assert(s2[i].0 == k);
        } else {
            if exists|x: int| 0 <= x < s.len() && s[x].0 == k {
                let x = choose|x: int| 0 <= x < s.len() && s[x].0 == k;
                if x < i {
                    assert(s2[x].0 == k);
                } else {
                    assert(s2[x + 1].0 == k);
                }
            }
            if exists|x: int| 0 <= x < s2.len() && s2[x].0 == k {
                let x = choose|x: int| 0 <= x < s2.len() && s2[x].0 == k;
                if x < i {
                    assert(s[x].0 == k);
                } else {
                    assert(s[x - 1].0 == k);
                }
            }
        }
    }
    assert forall|k: u64| entry_map(s2).contains_key(k) implies #[trigger] entry_map(s2)[k] == m[k] by {
        let x = choose|x: int| 0 <= x < s2.len() && s2[x].0 == k;
        lemma_entry_at(s2, x);
        if k != e.0 {
            if x < i {
                lemma_entry_at(s, x);
            } else {
                lemma_entry_at(s, x - 1);
            }
        }
    }
    assert(entry_map(s2) =~= m);
}

/// 1 for a Finalized entry, else 0.
pub open spec fn finalized_ind(e: (u64, LatestBlockhashSlot)) -> nat {
    if e.1.commitment == CommitmentLevel::Finalized {
        1
    } else {
        0
    }
}

pub proof fn lemma_count_update(s: Seq<(u64, LatestBlockhashSlot)>, i: int, e: (u64, LatestBlockhashSlot))
    requires
        0 <= i < s.len(),
    ensures
        finalized_count(s.update(i, e)) + finalized_ind(s[i]) == finalized_count(s) + finalized_ind(e),
    decreases s.len(),
{
    if i < s.len() - 1 {
        assert(s.update(i, e).drop_last() =~= s.drop_last().update(i, e));
        lemma_count_update(s.drop_last(), i, e);
    } else {
        assert(s.update(i, e).drop_last() =~= s.drop_last());
    }
}

pub proof fn lemma_count_insert(s: Seq<(u64, LatestBlockhashSlot)>, i: int, e: (u64, LatestBlockhashSlot))
    requires
        0 <= i <= s.len(),
    ensures
        finalized_count(s.insert(i, e)) == finalized_count(s) + finalized_ind(e),
    decreases s.len(),
{
    if i < s.len() {
        assert(s.insert(i, e).drop_last() =~= s.drop_last().insert(i, e));
        lemma_count_insert(s.drop_last(), i, e);
    } else {
        assert(s.insert(i, e).drop_last() =~= s);
    }
}

pub proof fn lemma_count_drop_first(s: Seq<(u64, LatestBlockhashSlot)>)
    requires
        s.len() > 0,
    ensures
        finalized_count(s) == finalized_ind(s[0]) + finalized_count(s.drop_first()),
    decreases s.len(),
{
    if s.len() > 1 {
        assert(s.drop_first().drop_last() =~= s.drop_last().drop_first());
        assert(s.drop_first().last() == s.last());
        lemma_count_drop_first(s.drop_last());
        assert(finalized_count(s.drop_first()) == finalized_count(s.drop_first().drop_last())
            + finalized_ind(s.drop_first().last()));
        assert(finalized_count(s) == finalized_count(s.drop_last()) + finalized_ind(s.last()));
    } else {
        assert(s.drop_first().len() == 0);
        assert(s.drop_last().len() == 0);
        assert(finalized_count(s) == finalized_count(s.drop_last()) + finalized_ind(s.last()));
    }
}

pub proof fn lemma_count_le_len(s: Seq<(u64, LatestBlockhashSlot)>)
    ensures
        finalized_count(s) <= s.len(),
    decreases s.len(),
{
    if s.len() > 0 {
        lemma_count_le_len(s.drop_last());
    }
}

/// Number of slots in `(t, s]` whose entry has commitment `c`.
pub open spec fn matches_above(m: Map<u64, LatestBlockhashSlot>, c: CommitmentLevel, t: u64, s: u64) -> nat
    decreases s,
{
    if s <= t {
        0
    } else {
        matches_above(m, c, t, (s - 1) as u64) + if m.contains_key(s) && m[s].commitment == c {
            1nat
        } else {
            0nat
        }
    }
}

/// A walk of `r + 1` steps is one step down, then `r` more.
pub proof fn lemma_walk_first_step(m: Map<u64, LatestBlockhashSlot>, s: u64, c: CommitmentLevel, r: nat)
    ensures
        rollback_walk(m, s, c, r + 1) == match prev_match(m, s, c) {
            Some(u) => rollback_walk(m, u, c, r),
            None => None,
        },
    decreases r,
{
    assert(rollback_walk(m, s, c, r + 1) == match rollback_walk(m, s, c, r) {
        Some(t) => prev_match(m, t, c),
        None => None,
    });
    if r > 0 {
        lemma_walk_first_step(m, s, c, (r - 1) as nat);
        assert((r - 1) as nat + 1 == r);
        match prev_match(m, s, c) {
            Some(u) => {
                assert(rollback_walk(m, u, c, r) == match rollback_walk(m, u, c, (r - 1) as nat) {
                    Some(t) => prev_match(m, t, c),
                    None => None,
                });
            },
            None => {},
        }
    } else {
        assert(rollback_walk(m, s, c, 0) == Some(s));
        match prev_match(m, s, c) {
            Some(u) => {
                assert(rollback_walk(m, u, c, 0) == Some(u));
            },
            None => {},
        }
    }
}

/// A slot that is the greatest match below `s` is what `prev_match` gives.
pub proof fn lemma_prev_match_unique(m: Map<u64, LatestBlockhashSlot>, s: u64, c: CommitmentLevel, k: u64)
    requires
        is_prev_match(m, s, c, k),
    ensures
        prev_match(m, s, c) == Some(k),
{
    let k2 = choose|x: u64| is_prev_match(m, s, c, x);
    assert(is_prev_match(m, s, c, k2));
    if k2 < k {
        assert(m.contains_key(k));
    } else if k < k2 {
        assert(m.contains_key(k2));
    }
}

/// Below `s`, a slot at commitment `c` means a greatest such slot exists.
pub proof fn lemma_prev_match_exists(m: Map<u64, LatestBlockhashSlot>, s: u64, c: CommitmentLevel, t: u64)
    requires
        t < s,
        m.contains_key(t),
        m[t].commitment == c,
    ensures
        prev_match(m, s, c) matches Some(k) && is_prev_match(m, s, c, k) && t <= k,
    decreases s,
{
    let below = (s - 1) as u64;
    if m.contains_key(below) && m[below].commitment == c {
        assert(is_prev_match(m, s, c, below));
        lemma_prev_match_unique(m, s, c, below);
    } else {
        lemma_prev_match_exists(m, below, c, t);
        let k = prev_match(m, below, c)->0;
        assert(is_prev_match(m, s, c, k));
        lemma_prev_match_unique(m, s, c, k);
    }
}

/// The count of matches is unchanged across a range without matches.
proof fn lemma_matches_flat(m: Map<u64, LatestBlockhashSlot>, c: CommitmentLevel, t: u64, b: u64, a: u64)
    requires
        b <= a,
        forall|j: u64| b < j <= a && #[trigger] m.contains_key(j) ==> m[j].commitment != c,
    ensures
        matches_above(m, c, t, a) == matches_above(m, c, t, b),
    decreases a - b,
{
    if b < a {
        lemma_matches_flat(m, c, t, b, (a - 1) as u64);
        if a > t {
            assert(matches_above(m, c, t, a) == matches_above(m, c, t, (a - 1) as u64) + if m.contains_key(a) && m[a].commitment == c {
                1nat
            } else {
                0nat
            });
        }
    }
}

/// From any `s` above a slot `t` at commitment `c`, one step more than the
/// matches strictly between them reaches `t`.
proof fn lemma_walk_reaches(m: Map<u64, LatestBlockhashSlot>, c: CommitmentLevel, t: u64, s: u64, r: nat)
    requires
        t < s,
        m.contains_key(t),
        m[t].commitment == c,
        r == matches_above(m, c, t, (s - 1) as u64),
    ensures
        rollback_walk(m, s, c, r + 1) == Some(t),
    decreases s - t,
{
    lemma_walk_first_step(m, s, c, r);
    lemma_prev_match_exists(m, s, c, t);
    let u = prev_match(m, s, c)->0;
    assert forall|j: u64| u < j <= (s - 1) as u64 && #[trigger] m.contains_key(j) implies m[j].commitment != c by {}
    lemma_matches_flat(m, c, t, u, (s - 1) as u64);
    if u == t {
        assert(matches_above(m, c, t, t) == 0);
        assert(rollback_walk(m, t, c, 0) == Some(t));
    } else {
        assert(matches_above(m, c, t, u) == matches_above(m, c, t, (u - 1) as u64) + 1);
        let q = (r - 1) as nat;
        lemma_walk_reaches(m, c, t, u, q);
        assert(r == q + 1);
    }
}

/// Rollback correctness: when the cached latest slot `l` at commitment `c`
/// is the most recent slot of the store at `c`, a rollback of `r` (at most
/// `MAX_RECENT_BLOCKHASHES`) answers the slot `t` at `c` that has exactly
/// `r` slots at `c` in `(t, l]`, i.e. the `(r + 1)`-th most recent one,
/// whatever slot numbers are missing in between.
pub proof fn lemma_rollback_law(store: LatestBlockhashStorage, c: CommitmentLevel, r: usize, t: u64)
    requires
        store.wf(),
        r <= MAX_RECENT_BLOCKHASHES,
        store.view_map().contains_key(store.latest(c)),
        store.view_map()[store.latest(c)].commitment == c,
        forall|k: u64| #[trigger] store.view_map().contains_key(k) && store.view_map()[k].commitment == c
            ==> k <= store.latest(c),
        store.view_map().contains_key(t),
        store.view_map()[t].commitment == c,
        t <= store.latest(c),
        matches_above(store.view_map(), c, t, store.latest(c)) == r,
    ensures
        store.blockhash_outcome(c, r, None) == Ok::<BlockhashAnswer, LookupError>(BlockhashAnswer {
            slot: t,
            hash: store.view_map()[t].hash,
            last_valid_block_height: last_valid_height(store.view_map()[t].height),
        }),
{
    let m = store.view_map();
    let l = store.latest(c);
    if t == l {
        assert(r == 0);
    } else {
        assert(matches_above(m, c, t, l) == matches_above(m, c, t, (l - 1) as u64) + 1);
        lemma_walk_reaches(m, c, t, l, (r - 1) as nat);
        assert((r - 1) as nat + 1 == r as nat);
    }
}

} // verus!

//! The recent-slot window: slot snapshots in ascending slot order, capped.
use vstd::prelude::*;
use crate::geyser::CommitmentLevel;
use crate::slot_info::StreamsSlotInfo;

verus! {

/// Largest number of slots kept in the window.
pub const MAX_NUM_RECENT_SLOT_INFO: usize = 150;

/// Slot numbers of a sequence of snapshots.
pub open spec fn slot_numbers(infos: Seq<StreamsSlotInfo>) -> Seq<u64> {
    infos.map_values(|i: StreamsSlotInfo| i.slot)
}

/// Strictly ascending.
pub open spec fn strictly_ascending(s: Seq<u64>) -> bool {
    forall|i: int, j: int| 0 <= i < j < s.len() ==> s[i] < s[j]
}

/// `s` with `slot` placed at its ordered position (nothing changes if it is
/// already there).
pub open spec fn with_slot(s: Seq<u64>, slot: u64) -> Seq<u64>
    decreases s.len(),
{
    if s.len() == 0 {
        seq![slot]
    } else if s.last() == slot {
        s
    } else if s.last() < slot {
        s.push(slot)
    } else {
        with_slot(s.drop_last(), slot).push(s.last())
    }
}

/// The window of recent slots.
#[derive(Debug)]
pub struct RecentSlots {
    pub infos: Vec<StreamsSlotInfo>,
}

impl RecentSlots {
    pub open spec fn wf(&self) -> bool {
        &&& strictly_ascending(slot_numbers(self.infos@))
        &&& self.infos@.len() <= MAX_NUM_RECENT_SLOT_INFO
        &&& forall|i: int| 0 <= i < self.infos@.len() ==> (#[trigger] self.infos@[i]).wf()
    }

    /// `new` is this window after `insert(info)`: the slot placed in order,
    /// the lowest slot dropped when over the cap, and `info` the snapshot of
    /// its slot.
    pub open spec fn placed(&self, new: Self, info: StreamsSlotInfo) -> bool {
        let before = slot_numbers(self.infos@);
        let after = slot_numbers(new.infos@);
        let with_it = with_slot(before, info.slot);
        &&& after == if with_it.len() > MAX_NUM_RECENT_SLOT_INFO {
            with_it.drop_first()
        } else {
            with_it
        }
        &&& forall|x: u64| #[trigger] after.contains(x) ==> before.contains(x) || x == info.slot
        &&& forall|x: u64| (before.contains(x) || x == info.slot) && !(#[trigger] after.contains(x))
            ==> new.infos@.len() == MAX_NUM_RECENT_SLOT_INFO
            && forall|j: int| 0 <= j < new.infos@.len() ==> new.infos@[j].slot > x
        &&& new.infos@.len() == if before.contains(info.slot) {
            self.infos@.len()
        } else if self.infos@.len() < MAX_NUM_RECENT_SLOT_INFO {
            self.infos@.len() + 1
        } else {
            MAX_NUM_RECENT_SLOT_INFO as nat
        }
        &&& self.infos@.len() == MAX_NUM_RECENT_SLOT_INFO
            && (forall|j: int| 0 <= j < self.infos@.len() ==> self.infos@[j].slot > info.slot)
            ==> after == before
        &&& forall|i: int| 0 <= i < new.infos@.len() ==> (#[trigger] new.infos@[i]).slot == info.slot
            ==> new.infos@[i] == info
        &&& forall|i: int| 0 <= i < new.infos@.len() ==> (#[trigger] new.infos@[i]).slot != info.slot
            ==> self.infos@.contains(new.infos@[i])
    }

    /// `new` is this window after `set_commitment(slot, c)`.
    pub open spec fn commitment_set(&self, new: Self, slot: u64, c: CommitmentLevel) -> bool {
        &&& new.infos@.len() == self.infos@.len()
        &&& forall|i: int| 0 <= i < new.infos@.len() ==> {
            let o = #[trigger] self.infos@[i];
            let n = new.infos@[i];
            if o.slot == slot {
                n == (StreamsSlotInfo { commitment: c, ..o })
            } else {
                n == o
            }
        }
    }

    /// An empty window.
    pub fn new() -> (r: Self)
        ensures
            r.wf(),
            r.infos@.len() == 0,
    {
        RecentSlots { infos: Vec::new() }
    }

    /// Index of `slot` (`Ok`) or where it would be inserted (`Err`).
    fn position(&self, slot: u64) -> (r: Result<usize, usize>)
        requires
            self.wf(),
        ensures
            match r {
                Ok(i) => i < self.infos@.len() && self.infos@[i as int].slot == slot,
                Err(i) => i <= self.infos@.len()
                    && (forall|j: int| 0 <= j < i ==> self.infos@[j].slot < slot)
                    && (forall|j: int| i <= j < self.infos@.len() ==> self.infos@[j].slot > slot),
            },
    {
        let mut i: usize = 0;
        while i < self.infos.len()
            invariant
                self.wf(),
                0 <= i <= self.infos@.len(),
                forall|j: int| 0 <= j < i ==> self.infos@[j].slot < slot,
            decreases self.infos@.len() - i,
        {
            if self.infos[i].slot == slot {
                return Ok(i);
            }
            if self.infos[i].slot > slot {
                proof {
                    assert forall|j: int| i <= j < self.infos@.len() implies self.infos@[j].slot > slot by {
                        if j > i {
                            assert(slot_numbers(self.infos@)[i as int] < slot_numbers(self.infos@)[j]);
                        }
                    }
                }
                return Err(i);
            }
            i = i + 1;
        }
        Err(i)
    }

    /// Inserts (or replaces) the snapshot of `info.slot`, then drops the
    /// lowest slot if the window is over its cap.
    pub fn insert(&mut self, info: StreamsSlotInfo)
        requires
            old(self).wf(),
            info.wf(),
        ensures
            final(self).wf(),
            old(self).placed(*final(self), info),
    {
        let ghost before = self.infos@;
        let ghost nums = slot_numbers(before);
        let slot = info.slot;
        let mut front: Ghost<bool> = Ghost(false);
        match self.position(slot) {
            Ok(i) => {
                self.infos.set(i, info);
                proof {
                    lemma_with_slot_present(nums, slot, i as int);
                    assert(slot_numbers(self.infos@) =~= nums);
                    assert(nums[i as int] == slot);
                    assert forall|x: int| 0 <= x < self.infos@.len() && (#[trigger] self.infos@[x]).slot == slot
                        implies self.infos@[x] == info by {
                        if x != i {
                            assert(slot_numbers(self.infos@)[x] != slot_numbers(self.infos@)[i as int]);
                        }
                    }
                    assert forall|x: int| 0 <= x < self.infos@.len() && (#[trigger] self.infos@[x]).slot != slot
                        implies before.contains(self.infos@[x]) by {
                        assert(self.infos@[x] == before[x]);
                    }
                }
            },
            Err(i) => {
                self.infos.insert(i, info);
                front = Ghost(i == 0);
                proof {
                    assert(!nums.contains(slot)) by {
                        if nums.contains(slot) {
                            let x = choose|x: int| 0 <= x < nums.len() && nums[x] == slot;
                            assert(before[x].slot == slot);
                        }
                    }
                    lemma_with_slot_insert(nums, slot, i as int);
                    assert(slot_numbers(self.infos@) =~= nums.insert(i as int, slot));
                    if before.len() > 0 && before[0].slot > slot {
                        assert(i == 0);
                    }
                    let placed = nums.insert(i as int, slot);
                    assert forall|x: u64| #[trigger] placed.contains(x) <==> nums.contains(x) || x == slot by {
                        if placed.contains(x) {
                            let j = choose|j: int| 0 <= j < placed.len() && placed[j] == x;
                            if j < i {
                                assert(nums[j] == x);
                            } else if j > i {
                                assert(nums[j - 1] == x);
                            }
                        }
                        if nums.contains(x) {
                            let j = choose|j: int| 0 <= j < nums.len() && nums[j] == x;
                            if j < i {
                                assert(placed[j] == x);
                            } else {
                                assert(placed[j + 1] == x);
                            }
                        }
                        if x == slot {
                            assert(placed[i as int] == x);
                        }
                    }
                    assert forall|a: int, b: int| 0 <= a < b < self.infos@.len() implies
                        slot_numbers(self.infos@)[a] < slot_numbers(self.infos@)[b] by {
                        if a < i && b > i {
                            assert(self.infos@[b] == before[b - 1]);
                        }
                    }
                    assert forall|x: int| 0 <= x < self.infos@.len() && (#[trigger] self.infos@[x]).slot == slot
                        implies self.infos@[x] == info by {
                        if x != i {
                            assert(slot_numbers(self.infos@)[x] != slot_numbers(self.infos@)[i as int]);
                        }
                    }
                    assert forall|x: int| 0 <= x < self.infos@.len() && (#[trigger] self.infos@[x]).slot != slot
                        implies before.contains(self.infos@[x]) by {
                        if x < i {
                            assert(self.infos@[x] == before[x]);
                        } else {
                            assert(self.infos@[x] == before[x - 1]);
                        }
                    }
                }
            },
        }
        let ghost placed = slot_numbers(self.infos@);
        assert(front@ ==> placed == nums.insert(0, slot));
        assert(!nums.contains(slot) && nums.len() > 0 && nums[0] > slot ==> front@);
        assert(forall|x: u64| #[trigger] placed.contains(x) <==> nums.contains(x) || x == slot);
        if self.infos.len() > MAX_NUM_RECENT_SLOT_INFO {
            let ghost full = self.infos@;
            self.infos.remove(0);
            proof {
                assert(self.infos@ =~= full.drop_first());
                assert(slot_numbers(self.infos@) =~= slot_numbers(full).drop_first());
                assert forall|x: int| 0 <= x < self.infos@.len() implies #[trigger] self.infos@[x] == full[x + 1] by {}
                let fin = slot_numbers(self.infos@);
                if before.len() == MAX_NUM_RECENT_SLOT_INFO && (forall|j: int| 0 <= j < before.len() ==> before[j].slot > slot) {
                    if nums.contains(slot) {
                        let j = choose|j: int| 0 <= j < nums.len() && nums[j] == slot;
                        assert(before[j].slot > slot);
                    }
                    assert(front@);
                    assert(fin =~= nums);
                }
                assert forall|x: u64| #[trigger] fin.contains(x) implies nums.contains(x) || x == slot by {
                    let j = choose|j: int| 0 <= j < fin.len() && fin[j] == x;
                    assert(placed[j + 1] == x);
                }
                assert forall|x: u64| (nums.contains(x) || x == slot) && !(#[trigger] fin.contains(x))
                    implies self.infos@.len() == MAX_NUM_RECENT_SLOT_INFO
                    && forall|j: int| 0 <= j < self.infos@.len() ==> self.infos@[j].slot > x by {
                    assert(placed.contains(x));
                    let j = choose|j: int| 0 <= j < placed.len() && placed[j] == x;
                    if j > 0 {
                        assert(fin[j - 1] == x);
                    }
                    assert forall|y: int| 0 <= y < self.infos@.len() implies self.infos@[y].slot > x by {
                        assert(placed[y + 1] > placed[0]);
                    }
                }
            }
        }
    }

    /// Sets the commitment of `slot`'s snapshot, if the window holds it.
    pub fn set_commitment(&mut self, slot: u64, commitment: CommitmentLevel)
        requires
            old(self).wf(),
        ensures
            final(self).wf(),
            old(self).commitment_set(*final(self), slot, commitment),
    {
        match self.position(slot) {
            Ok(i) => {
                let ghost before = self.infos@;
                let old_info = self.infos.remove(i);
                let updated = StreamsSlotInfo { commitment, ..old_info };
                self.infos.insert(i, updated);
                proof {
                    assert forall|x: int| 0 <= x < before.len() && x != i implies before[x].slot != slot by {
                        if x < i {
                            assert(slot_numbers(before)[x] < slot_numbers(before)[i as int]);
                        } else {
                            assert(slot_numbers(before)[x] > slot_numbers(before)[i as int]);
                        }
                    }
                    assert(self.infos@ =~= before.update(i as int, updated));
                    assert(slot_numbers(self.infos@) =~= slot_numbers(before));
                }
            },
            Err(_) => {},
        }
    }
}

proof fn lemma_with_slot_insert(s: Seq<u64>, slot: u64, i: int)
    requires
        0 <= i <= s.len(),
        forall|j: int| 0 <= j < i ==> s[j] < slot,
        forall|j: int| i <= j < s.len() ==> s[j] > slot,
    ensures
        with_slot(s, slot) == s.insert(i, slot),
    decreases s.len(),
{
    if s.len() == 0 {
        assert(s.insert(i, slot) =~= seq![slot]);
    } else if i == s.len() {
        assert(s.insert(i, slot) =~= s.push(slot));
    } else {
        lemma_with_slot_insert(s.drop_last(), slot, i);
        assert(s.drop_last().insert(i, slot).push(s.last()) =~= s.insert(i, slot));
    }
}

proof fn lemma_with_slot_present(s: Seq<u64>, slot: u64, i: int)
    requires
        strictly_ascending(s),
        0 <= i < s.len(),
        s[i] == slot,
    ensures
        with_slot(s, slot) == s,
    decreases s.len(),
{
    if s.last() != slot {
        assert(s.last() > slot);
        lemma_with_slot_present(s.drop_last(), slot, i);
        assert(s.drop_last().push(s.last()) =~= s);
    }
}

} // verus!

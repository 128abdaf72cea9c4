//! The single-writer state: ingest of feed events and answers to queries.
use vstd::prelude::*;
use crate::blockhash::{prev_match, rollback_walk, LatestBlockhashStorage, LookupError};
use crate::geyser::{CommitmentLevel, GeyserMessage};
use crate::keys::{hash_text, hash_text_of, Pubkey};
use crate::slot_info::StreamsSlotInfo;
use crate::window::{slot_numbers, RecentSlots, MAX_NUM_RECENT_SLOT_INFO};

verus! {

/// A notice published to subscribers after an event is applied.
#[derive(Debug)]
pub enum StreamsUpdateMessage {
    Status { slot: u64, commitment: CommitmentLevel },
    Slot { info: StreamsSlotInfo },
}

/// One query answered against the current state.
#[derive(Clone, Debug)]
pub enum RpcRequest {
    LatestBlockhash { commitment: CommitmentLevel, rollback: usize, min_context_slot: Option<u64> },
    RecentPrioritizationFees { pubkeys: Vec<Pubkey>, percentile: Option<u16> },
    Slot { commitment: CommitmentLevel, min_context_slot: Option<u64> },
}

/// Fee of one recent slot.
#[derive(Clone, Copy, Debug, PartialEq, Eq, Structural)]
pub struct RpcPrioritizationFee {
    pub slot: u64,
    pub prioritization_fee: u64,
}

/// The answer to one query.
#[derive(Debug)]
pub enum RpcResult {
    LatestBlockhash { slot: u64, blockhash: String, last_valid_block_height: u64 },
    Slot(u64),
    RecentPrioritizationFees(Vec<RpcPrioritizationFee>),
}

/// The window `infos` holds only slots of `seen`, and any slot of `seen` it
/// lacks is below every slot of a full window.
pub open spec fn window_law(infos: Seq<StreamsSlotInfo>, seen: Set<u64>) -> bool {
    let nums = slot_numbers(infos);
    &&& forall|x: u64| #[trigger] nums.contains(x) ==> seen.contains(x)
    &&& forall|x: u64| #[trigger] seen.contains(x) && !nums.contains(x)
        ==> infos.len() == MAX_NUM_RECENT_SLOT_INFO
        && forall|j: int| 0 <= j < infos.len() ==> infos[j].slot > x
}

/// The law depends on the slot numbers alone.
proof fn lemma_law_same_slots(a: Seq<StreamsSlotInfo>, b: Seq<StreamsSlotInfo>, seen: Set<u64>)
    requires
        window_law(a, seen),
        slot_numbers(a) == slot_numbers(b),
    ensures
        window_law(b, seen),
{
    assert(a.len() == slot_numbers(a).len());
    assert forall|x: u64| #[trigger] seen.contains(x) && !slot_numbers(b).contains(x) implies
        b.len() == MAX_NUM_RECENT_SLOT_INFO && forall|j: int| 0 <= j < b.len() ==> b[j].slot > x by {
        assert(!slot_numbers(a).contains(x));
        assert forall|j: int| 0 <= j < b.len() implies b[j].slot > x by {
            assert(slot_numbers(b).len() == b.len());
            assert(slot_numbers(a).len() == a.len());
            assert(slot_numbers(b)[j] == b[j].slot);
            assert(slot_numbers(a)[j] == a[j].slot);
            assert(slot_numbers(b)[j] == slot_numbers(a)[j]);
            assert(a[j].slot > x);
        }
    }
}

/// Placing a new slot as the window's insertion does keeps the law.
proof fn lemma_law_after_insert(a: Seq<StreamsSlotInfo>, b: Seq<StreamsSlotInfo>, seen: Set<u64>, slot: u64)
    requires
        window_law(a, seen),
        b.len() <= MAX_NUM_RECENT_SLOT_INFO,
        b.len() == if slot_numbers(a).contains(slot) {
            a.len()
        } else if a.len() < MAX_NUM_RECENT_SLOT_INFO {
            a.len() + 1
        } else {
            MAX_NUM_RECENT_SLOT_INFO as nat
        },
        forall|x: u64| #[trigger] slot_numbers(b).contains(x) ==> slot_numbers(a).contains(x) || x == slot,
        forall|x: u64| (slot_numbers(a).contains(x) || x == slot) && !(#[trigger] slot_numbers(b).contains(x))
            ==> b.len() == MAX_NUM_RECENT_SLOT_INFO && forall|j: int| 0 <= j < b.len() ==> b[j].slot > x,
        a.len() == MAX_NUM_RECENT_SLOT_INFO && (forall|j: int| 0 <= j < a.len() ==> a[j].slot > slot)
            ==> slot_numbers(b) == slot_numbers(a),
    ensures
        window_law(b, seen.insert(slot)),
{
    let na = slot_numbers(a);
    let nb = slot_numbers(b);
    assert forall|x: u64| #[trigger] seen.insert(slot).contains(x) && !nb.contains(x) implies
        b.len() == MAX_NUM_RECENT_SLOT_INFO && forall|j: int| 0 <= j < b.len() ==> b[j].slot > x by {
        if na.contains(x) || x == slot {
            assert(!slot_numbers(b).contains(x));
        } else {
            assert(seen.contains(x));
            assert(!na.contains(x));
            assert(a.len() == MAX_NUM_RECENT_SLOT_INFO);
            assert(b.len() == nb.len() && a.len() == na.len());
            if slot > x {
                assert forall|j: int| 0 <= j < b.len() implies b[j].slot > x by {
                    assert(nb[j] == b[j].slot);
                    assert(nb.contains(nb[j]));
                    if nb[j] != slot {
                        let m = choose|m: int| 0 <= m < na.len() && na[m] == nb[j];
                        assert(na[m] == a[m].slot);
                        assert(a[m].slot > x);
                    }
                }
            } else {
                assert(nb == na);
                assert(b.len() == nb.len());
                assert(na.len() == a.len());
                assert forall|j: int| 0 <= j < b.len() implies b[j].slot > x by {
                    assert(nb[j] == b[j].slot);
                    assert(na[j] == a[j].slot);
                    assert(a[j].slot > x);
                }
            }
        }
    }
}

/// Store, window and the set of slots ingested so far.
pub struct RpcUpdateState {
    pub blockhashes: LatestBlockhashStorage,
    pub recent: RecentSlots,
    pub seen: Ghost<Set<u64>>,
}

impl RpcUpdateState {
    /// The window holds only ingested slots, and any ingested slot it lacks
    /// is below every slot of a full window.
    pub open spec fn window_law(&self) -> bool {
        window_law(self.recent.infos@, self.seen@)
    }

    /// Every slot the state refers to was ingested (0 stands for none yet).
    pub open spec fn refers_to_seen(&self) -> bool {
        &&& forall|x: u64| #[trigger] self.blockhashes.view_map().contains_key(x) ==> self.seen@.contains(x)
        &&& self.blockhashes.slot_processed == 0 || self.seen@.contains(self.blockhashes.slot_processed)
        &&& self.blockhashes.slot_confirmed == 0 || self.seen@.contains(self.blockhashes.slot_confirmed)
        &&& self.blockhashes.slot_finalized == 0 || self.seen@.contains(self.blockhashes.slot_finalized)
    }

    pub open spec fn wf(&self) -> bool {
        &&& self.blockhashes.wf()
        &&& self.blockhashes.finalized_total <= crate::blockhash::MAX_FINALIZED_ENTRIES
        &&& self.recent.wf()
        &&& self.window_law()
        &&& self.refers_to_seen()
    }

    /// A state with nothing ingested.
    pub fn new() -> (r: Self)
        ensures
            r.wf(),
            r.seen@ == Set::<u64>::empty(),
            r.blockhashes.view_map() == Map::<u64, crate::blockhash::LatestBlockhashSlot>::empty(),
            r.blockhashes.slot_processed == 0,
            r.blockhashes.slot_confirmed == 0,
            r.blockhashes.slot_finalized == 0,
            r.blockhashes.finalized_total == 0,
            r.recent.infos@.len() == 0,
    {
        let r = RpcUpdateState {
            blockhashes: LatestBlockhashStorage::new(),
            recent: RecentSlots::new(),
            seen: Ghost(Set::empty()),
        };
        proof {
            assert(r.blockhashes.view_map() =~= Map::empty());
        }
        r
    }

    /// Applies one feed event and returns the notice to publish.
    ///
    /// A status event sets the slot's commitment in the store and in the
    /// window; a slot event stores its block at Processed and places its
    /// snapshot in the window.
    pub fn apply_event(&mut self, message: GeyserMessage) -> (r: StreamsUpdateMessage)
        requires
            old(self).wf(),
        ensures
            final(self).wf(),
            match message {
                GeyserMessage::Status { slot, commitment } => {
                    &&& final(self).seen@ == old(self).seen@
                    &&& old(self).blockhashes.commitment_applied(final(self).blockhashes, slot, commitment)
                    &&& old(self).recent.commitment_set(final(self).recent, slot, commitment)
                    &&& r == StreamsUpdateMessage::Status { slot, commitment }
                },
                GeyserMessage::Slot { slot, hash, time, height, transactions, .. } => {
                    &&& final(self).seen@ == old(self).seen@.insert(slot)
                    &&& old(self).blockhashes.block_pushed(final(self).blockhashes, slot, height, hash)
                    &&& r matches StreamsUpdateMessage::Slot { info }
                    &&& old(self).recent.placed(final(self).recent, info)
                    &&& info.slot == slot && info.hash == hash && info.time == time && info.height == height
                    &&& info.commitment == CommitmentLevel::Processed
                    &&& info.transactions@ == transactions@
                    &&& info.wf()
                },
            },
    {
        match message {
            GeyserMessage::Status { slot, commitment } => {
                let ghost before = self.blockhashes.slots@;
                self.blockhashes.update_commitment(slot, commitment);
                let ghost infos = self.recent.infos@;
                self.recent.set_commitment(slot, commitment);
                proof {
                    assert(slot_numbers(self.recent.infos@) =~= slot_numbers(infos));
                    lemma_law_same_slots(infos, self.recent.infos@, self.seen@);
                    if crate::blockhash::entry_map(before).contains_key(slot) {
                        assert(self.seen@.contains(slot));
                    }
                    assert(self.window_law());
                    let after = self.blockhashes.slots@;
                    let mid = crate::blockhash::with_commitment(before, slot, commitment);
                    assert forall|x: u64| #[trigger] self.blockhashes.view_map().contains_key(x) implies self.seen@.contains(x) by {
                        let j = choose|j: int| 0 <= j < after.len() && after[j].0 == x;
                        let off = mid.len() - after.len();
                        assert(after[j] == mid[j + off]);
                        assert(before[j + off].0 == x);
                        assert(crate::blockhash::entry_map(before).contains_key(x));
                    }
                }
                StreamsUpdateMessage::Status { slot, commitment }
            },
            GeyserMessage::Slot { slot, hash, time, height, parent_slot: _, parent_hash: _, transactions } => {
                let ghost old_seen = self.seen@;
                let ghost old_infos = self.recent.infos@;
                proof {
                    self.seen@ = self.seen@.insert(slot);
                }
                self.blockhashes.push_block(slot, height, hash);
                let info = StreamsSlotInfo::new(slot, hash, time, height, transactions);
                let notice = info.share();
                self.recent.insert(info);
                proof {
                    lemma_law_after_insert(old_infos, self.recent.infos@, old_seen, slot);
                }
                StreamsUpdateMessage::Slot { info: notice }
            },
        }
    }

    /// What a query answers against this state, the texts aside: `Ok` holds
    /// the blockhash lookup's answer, the slot, or one fee per window slot.
    pub open spec fn answers(&self, request: RpcRequest, r: Result<RpcResult, LookupError>) -> bool {
        match request {
            RpcRequest::LatestBlockhash { commitment, rollback, min_context_slot } => {
                match self.blockhashes.blockhash_outcome(commitment, rollback, min_context_slot) {
                    Ok(a) => r matches Ok(RpcResult::LatestBlockhash { slot, blockhash, last_valid_block_height })
                        && slot == a.slot && blockhash@ == hash_text_of(a.hash@)
                        && last_valid_block_height == a.last_valid_block_height,
                    Err(e) => r == Err::<RpcResult, LookupError>(e),
                }
            },
            RpcRequest::Slot { commitment, min_context_slot } => {
                match self.blockhashes.slot_outcome(commitment, min_context_slot) {
                    Ok(s) => r matches Ok(RpcResult::Slot(t)) && t == s,
                    Err(e) => r == Err::<RpcResult, LookupError>(e),
                }
            },
            RpcRequest::RecentPrioritizationFees { pubkeys, percentile } => {
                r matches Ok(RpcResult::RecentPrioritizationFees(v)) && v@.len() == self.recent.infos@.len()
                    && forall|i: int| 0 <= i < v@.len() ==> #[trigger] v@[i] == (RpcPrioritizationFee {
                        slot: self.recent.infos@[i].slot,
                        prioritization_fee: self.recent.infos@[i].fees.fee_for(pubkeys@, percentile),
                    })
            },
        }
    }

    /// Answers one query against the current state.
    pub fn answer(&self, request: &RpcRequest) -> (r: Result<RpcResult, LookupError>)
        requires
            self.wf(),
        ensures
            self.answers(*request, r),
    {
        match request {
            RpcRequest::LatestBlockhash { commitment, rollback, min_context_slot } => {
                match self.blockhashes.get_latest_blockhash(*commitment, *rollback, *min_context_slot) {
                    Ok(a) => Ok(RpcResult::LatestBlockhash {
                        slot: a.slot,
                        blockhash: hash_text(&a.hash),
                        last_valid_block_height: a.last_valid_block_height,
                    }),
                    Err(e) => Err(e),
                }
            },
            RpcRequest::Slot { commitment, min_context_slot } => {
                match self.blockhashes.get_slot(*commitment, *min_context_slot) {
                    Ok(s) => Ok(RpcResult::Slot(s)),
                    Err(e) => Err(e),
                }
            },
            RpcRequest::RecentPrioritizationFees { pubkeys, percentile } => {
                let mut out: Vec<RpcPrioritizationFee> = Vec::new();
                let mut i: usize = 0;
                while i < self.recent.infos.len()
                    invariant
                        self.wf(),
                        0 <= i <= self.recent.infos@.len(),
                        out@.len() == i,
                        forall|j: int| 0 <= j < i ==> #[trigger] out@[j] == (RpcPrioritizationFee {
                            slot: self.recent.infos@[j].slot,
                            prioritization_fee: self.recent.infos@[j].fees.fee_for(pubkeys@, *percentile),
                        }),
                    decreases self.recent.infos@.len() - i,
                {
                    let info = &self.recent.infos[i];
                    assert(info.wf());
                    let fee = info.fees.get_fee(pubkeys.as_slice(), *percentile);
                    out.push(RpcPrioritizationFee { slot: info.slot, prioritization_fee: fee });
                    i = i + 1;
                }
                Ok(RpcResult::RecentPrioritizationFees(out))
            },
        }
    }

    /// Answers a batch in order, or nothing when the caller has already
    /// given up on it.
    pub fn answer_batch(&self, requests: &Vec<RpcRequest>, cancelled: bool) -> (r: Option<Vec<Result<RpcResult, LookupError>>>)
        requires
            self.wf(),
        ensures
            cancelled <==> r is None,
            r matches Some(out) ==> out@.len() == requests@.len()
                && forall|i: int| 0 <= i < requests@.len() ==> self.answers(requests@[i], #[trigger] out@[i]),
    {
        if cancelled {
            return None;
        }
        let mut out: Vec<Result<RpcResult, LookupError>> = Vec::new();
        let mut i: usize = 0;
        while i < requests.len()
            invariant
                self.wf(),
                0 <= i <= requests@.len(),
                out@.len() == i,
                forall|j: int| 0 <= j < i ==> self.answers(requests@[j], #[trigger] out@[j]),
            decreases requests@.len() - i,
        {
            out.push(self.answer(&requests[i]));
            i = i + 1;
        }
        Some(out)
    }
}

/// A successful walk ends on a slot of the store.
pub proof fn lemma_walk_in_store(m: Map<u64, crate::blockhash::LatestBlockhashSlot>, s: u64, c: CommitmentLevel, steps: nat)
    requires
        m.contains_key(s),
    ensures
        rollback_walk(m, s, c, steps) matches Some(t) ==> m.contains_key(t),
    decreases steps,
{
    if steps > 0 {
        lemma_walk_in_store(m, s, c, (steps - 1) as nat);
        match rollback_walk(m, s, c, (steps - 1) as nat) {
            Some(t) => lemma_prev_in_store(m, t, c),
            None => {},
        }
    }
}

/// A slot found by a rollback step is in the store.
pub proof fn lemma_prev_in_store(m: Map<u64, crate::blockhash::LatestBlockhashSlot>, s: u64, c: CommitmentLevel)
    ensures
        prev_match(m, s, c) matches Some(t) ==> m.contains_key(t),
{
}

/// No answer refers to a slot that was not ingested: a resolved blockhash
/// and every slot of a fee answer were ingested, and a slot answer is an
/// ingested slot or 0 (nothing at that commitment yet).
pub proof fn lemma_answers_refer_to_ingested(state: RpcUpdateState, request: RpcRequest, r: Result<RpcResult, LookupError>)
    requires
        state.wf(),
        state.answers(request, r),
    ensures
        r matches Ok(RpcResult::LatestBlockhash { slot, .. }) ==> state.seen@.contains(slot),
        r matches Ok(RpcResult::Slot(s)) ==> s == 0 || state.seen@.contains(s),
        r matches Ok(RpcResult::RecentPrioritizationFees(v)) ==> forall|i: int| 0 <= i < v@.len() ==> state.seen@.contains(#[trigger] v@[i].slot),
{
    match request {
        RpcRequest::LatestBlockhash { commitment, rollback, min_context_slot } => {
            let m = state.blockhashes.view_map();
            let s = state.blockhashes.latest(commitment);
            if m.contains_key(s) {
                lemma_walk_in_store(m, s, commitment, rollback as nat);
            }
        },
        RpcRequest::Slot { .. } => {},
        RpcRequest::RecentPrioritizationFees { .. } => {
            if let Ok(RpcResult::RecentPrioritizationFees(v)) = r {
                assert forall|i: int| 0 <= i < v@.len() implies state.seen@.contains(#[trigger] v@[i].slot) by {
                    let nums = slot_numbers(state.recent.infos@);
                    assert(nums[i] == state.recent.infos@[i].slot);
                    assert(nums.contains(nums[i]));
                }
            }
        },
    }
}

} // verus!

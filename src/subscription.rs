//! Subscriber filters and the pushes built from broadcast updates.
use vstd::prelude::*;
use crate::fees::{percentile_of, sort_ascending, sorted, RecentPrioritizationFeesSlot};
use crate::geyser::{CommitmentLevel, GeyserTransaction};
use crate::keys::{
    contains_key, decode_all, find_key, first_invalid, lemma_decode_all_len, hash_text, hash_text_of, parse_pubkeys,
    pubkey_text, pubkey_text_of, Pubkey,
};
use crate::slot_info::{vote_count, StreamsSlotInfo};

verus! {

/// Largest number of accounts a transaction may lock.
pub const MAX_TX_ACCOUNT_LOCKS: usize = 128;

/// Largest number of percentile levels of a subscription.
pub const MAX_LEVELS: usize = 5;

/// Subscription parameters as received.
#[derive(Clone, Debug)]
pub struct ReqParamsSlotsSubscribeConfig {
    pub read_write: Vec<String>,
    pub read_only: Vec<String>,
    pub levels: Vec<u16>,
}

/// Why subscription parameters were refused.
#[derive(Clone, Debug)]
pub enum FilterError {
    /// This text is not a valid key.
    InvalidPubkey(String),
    TooManyAccounts,
    TooManyLevels,
    LevelTooLarge,
}

/// A validated subscription filter.
#[derive(Debug)]
pub struct SlotSubscribeFilter {
    pub read_write: Vec<Pubkey>,
    pub read_only: Vec<Pubkey>,
    pub levels: Vec<u16>,
}

/// Every key of `required` occurs in `present`.
pub open spec fn all_present(required: Seq<Pubkey>, present: Seq<Pubkey>) -> bool {
    forall|i: int| 0 <= i < required.len() ==> contains_key(present, #[trigger] required[i]@)
}

/// Views of keys.
pub open spec fn key_views(ks: Seq<Pubkey>) -> Seq<Seq<u8>> {
    ks.map_values(|k: Pubkey| k@)
}

/// The outcome of validating `config`.
pub open spec fn filter_outcome_ok(config: ReqParamsSlotsSubscribeConfig) -> bool {
    &&& decode_all(config.read_write@) is Some
    &&& decode_all(config.read_only@) is Some
    &&& config.read_write@.len() + config.read_only@.len() <= MAX_TX_ACCOUNT_LOCKS
    &&& config.levels@.len() <= MAX_LEVELS
    &&& forall|i: int| 0 <= i < config.levels@.len() ==> config.levels@[i] <= 10_000
}

impl SlotSubscribeFilter {
    /// Whether `tx` is counted by this filter.
    pub open spec fn matches(&self, tx: GeyserTransaction) -> bool {
        &&& !tx.vote
        &&& all_present(self.read_write@, tx.accounts.writable@)
        &&& all_present(self.read_only@, tx.accounts.readable@)
    }

    /// Fees of the matching transactions, in order.
    pub open spec fn filtered_fees(&self, txs: Seq<GeyserTransaction>) -> Seq<u64>
        decreases txs.len(),
    {
        if txs.len() == 0 {
            Seq::empty()
        } else {
            self.filtered_fees(txs.drop_last()) + if self.matches(txs.last()) {
                seq![txs.last().fee]
            } else {
                Seq::<u64>::empty()
            }
        }
    }

    /// Validates subscription parameters: every key must be valid base58,
    /// at most `MAX_TX_ACCOUNT_LOCKS` keys in all, at most `MAX_LEVELS`
    /// levels, each at most 10000.
    pub fn try_from(config: ReqParamsSlotsSubscribeConfig) -> (r: Result<Self, FilterError>)
        ensures
            r is Ok <==> filter_outcome_ok(config),
            match r {
                Ok(f) => Some(key_views(f.read_write@)) == decode_all(config.read_write@)
                    && Some(key_views(f.read_only@)) == decode_all(config.read_only@)
                    && f.levels@ == config.levels@,
                Err(FilterError::InvalidPubkey(s)) => (exists|i: int| first_invalid(config.read_write@, i) && config.read_write@[i]@ == s@)
                    || (decode_all(config.read_write@) is Some
                        && exists|i: int| first_invalid(config.read_only@, i) && config.read_only@[i]@ == s@),
                Err(FilterError::TooManyAccounts) => decode_all(config.read_write@) is Some
                    && decode_all(config.read_only@) is Some
                    && config.read_write@.len() + config.read_only@.len() > MAX_TX_ACCOUNT_LOCKS,
                Err(FilterError::TooManyLevels) => decode_all(config.read_write@) is Some
                    && decode_all(config.read_only@) is Some
                    && config.read_write@.len() + config.read_only@.len() <= MAX_TX_ACCOUNT_LOCKS
                    && config.levels@.len() > MAX_LEVELS,
                Err(FilterError::LevelTooLarge) => decode_all(config.read_write@) is Some
                    && decode_all(config.read_only@) is Some
                    && config.read_write@.len() + config.read_only@.len() <= MAX_TX_ACCOUNT_LOCKS
                    && config.levels@.len() <= MAX_LEVELS
                    && exists|i: int| 0 <= i < config.levels@.len() && config.levels@[i] > 10_000,
            },
    {
        let read_write = match parse_pubkeys(&config.read_write) {
            Ok(ks) => ks,
            Err((i, _)) => {
                return Err(FilterError::InvalidPubkey(config.read_write[i].clone()));
            },
        };
        let read_only = match parse_pubkeys(&config.read_only) {
            Ok(ks) => ks,
            Err((i, _)) => {
                return Err(FilterError::InvalidPubkey(config.read_only[i].clone()));
            },
        };
        proof {
            lemma_decode_all_len(config.read_write@);
            lemma_decode_all_len(config.read_only@);
            assert(key_views(read_write@).len() == read_write@.len());
            assert(key_views(read_only@).len() == read_only@.len());
        }
        if read_write.len() > MAX_TX_ACCOUNT_LOCKS || read_only.len() > MAX_TX_ACCOUNT_LOCKS - read_write.len() {
            return Err(FilterError::TooManyAccounts);
        }
        if config.levels.len() > MAX_LEVELS {
            return Err(FilterError::TooManyLevels);
        }
        let mut i: usize = 0;
        while i < config.levels.len()
            invariant
                0 <= i <= config.levels@.len(),
                forall|j: int| 0 <= j < i ==> config.levels@[j] <= 10_000,
                decode_all(config.read_write@) is Some,
                decode_all(config.read_only@) is Some,
                config.read_write@.len() + config.read_only@.len() <= MAX_TX_ACCOUNT_LOCKS,
                config.levels@.len() <= MAX_LEVELS,
            decreases config.levels@.len() - i,
        {
            if config.levels[i] > 10_000 {
                assert(0 <= i < config.levels@.len() && config.levels@[i as int] > 10_000);
                return Err(FilterError::LevelTooLarge);
            }
            i = i + 1;
        }
        Ok(SlotSubscribeFilter { read_write, read_only, levels: config.levels })
    }

    /// Whether every key of `required` occurs in `pubkeys` (true when
    /// `required` is empty).
    pub fn filter_pubkeys(required: &[Pubkey], pubkeys: &[Pubkey]) -> (r: bool)
        ensures
            r == all_present(required@, pubkeys@),
    {
        let mut i: usize = 0;
        while i < required.len()
            invariant
                0 <= i <= required@.len(),
                forall|j: int| 0 <= j < i ==> contains_key(pubkeys@, #[trigger] required@[j]@),
            decreases required@.len() - i,
        {
            if !find_key(pubkeys, &required[i]) {
                return false;
            }
            i = i + 1;
        }
        true
    }
}

/// Sum of a sequence of fees.
pub open spec fn sum_of(s: Seq<u64>) -> nat
    decreases s.len(),
{
    if s.len() == 0 {
        0
    } else {
        sum_of(s.drop_last()) + s.last() as nat
    }
}

/// What a subscriber is sent for one broadcast update.
#[derive(Debug)]
pub enum SlotsSubscribeOutput {
    /// A commitment advance of a slot.
    Status { slot: u64, commitment: CommitmentLevel },
    /// A new slot seen through the subscriber's filter. The average fee is
    /// `fee_sum / total_transactions_filtered` (0 when nothing matched).
    Slot {
        identity: String,
        slot: u64,
        hash: String,
        time: i64,
        height: u64,
        total_transactions_filtered: usize,
        total_transactions_vote: usize,
        total_transactions: usize,
        fee_sum: u128,
        fee_levels: Vec<Option<u64>>,
        total_fee: u64,
        total_units_consumed: u64,
    },
}

impl StreamsSlotInfo {
    /// `r` is the slot `info` seen through `filter`.
    pub open spec fn is_filtered_view(info: StreamsSlotInfo, filter: SlotSubscribeFilter, r: SlotsSubscribeOutput) -> bool {
        match r {
            SlotsSubscribeOutput::Slot {
                identity,
                slot,
                hash,
                time,
                height,
                total_transactions_filtered,
                total_transactions_vote,
                total_transactions,
                fee_sum,
                fee_levels,
                total_fee,
                total_units_consumed,
            } => {
                let fees = filter.filtered_fees(info.transactions@);
                &&& identity@ == pubkey_text_of(info.identity@)
                &&& slot == info.slot
                &&& hash@ == hash_text_of(info.hash@)
                &&& time == info.time
                &&& height == info.height
                &&& total_transactions_filtered == fees.len()
                &&& total_transactions_vote == info.total_transactions_vote
                &&& total_transactions == info.transactions@.len()
                &&& fee_sum == sum_of(fees)
                &&& fee_levels@.len() == filter.levels@.len()
                &&& filter.levels@.len() > 0 ==> exists|s: Seq<u64>| {
                    &&& sorted(s)
                    &&& s.to_multiset() == fees.to_multiset()
                    &&& forall|i: int| 0 <= i < fee_levels@.len() ==> #[trigger] fee_levels@[i] == percentile_of(s, filter.levels@[i])
                }
                &&& total_fee == info.total_fee
                &&& total_units_consumed == info.total_units_consumed
            },
            SlotsSubscribeOutput::Status { .. } => false,
        }
    }

    /// The slot seen through `filter`: count, sum and percentile levels of
    /// the fees of the matching non-vote transactions, with the slot's own
    /// aggregates.
    pub fn get_filtered(&self, filter: &SlotSubscribeFilter) -> (r: SlotsSubscribeOutput)
        ensures
            Self::is_filtered_view(*self, *filter, r),
    {
        let txs: &Vec<GeyserTransaction> = &self.transactions;
        let mut fees: Vec<u64> = Vec::new();
        let mut sum: u128 = 0;
        let mut i: usize = 0;
        while i < txs.len()
            invariant
                txs@ == self.transactions@,
                0 <= i <= txs@.len(),
                fees@ == filter.filtered_fees(txs@.take(i as int)),
                sum == sum_of(fees@),
                fees@.len() <= i,
                sum <= fees@.len() * 0xffff_ffff_ffff_ffffu128,
            decreases txs@.len() - i,
        {
            let tx = &txs[i];
            proof {
                assert(txs@.take(i + 1).drop_last() =~= txs@.take(i as int));
            }
            if !tx.vote && SlotSubscribeFilter::filter_pubkeys(filter.read_write.as_slice(), tx.accounts.writable.as_slice())
                && SlotSubscribeFilter::filter_pubkeys(filter.read_only.as_slice(), tx.accounts.readable.as_slice()) {
                let ghost prev = fees@;
                proof {
                    let n = prev.len();
                    assert(n < 0x1_0000_0000_0000_0000u128);
                    assert((n + 1) * 0xffff_ffff_ffff_ffffu128 == n * 0xffff_ffff_ffff_ffffu128 + 0xffff_ffff_ffff_ffffu128) by (nonlinear_arith);
                    assert((n + 1) * 0xffff_ffff_ffff_ffffu128 <= 0x1_0000_0000_0000_0000u128 * 0xffff_ffff_ffff_ffffu128) by (nonlinear_arith)
                        requires n < 0x1_0000_0000_0000_0000u128;
                }
                fees.push(tx.fee);
                sum = sum + tx.fee as u128;
                proof {
                    assert(fees@.drop_last() =~= prev);
                }
            }
            i = i + 1;
        }
        proof {
            assert(txs@.take(txs@.len() as int) =~= txs@);
        }
        let total_transactions_filtered = fees.len();
        let ghost filtered = fees@;
        let mut fee_levels: Vec<Option<u64>> = Vec::new();
        if filter.levels.len() > 0 {
            sort_ascending(&mut fees);
            let mut j: usize = 0;
            while j < filter.levels.len()
                invariant
                    0 <= j <= filter.levels@.len(),
                    fee_levels@.len() == j,
                    forall|x: int| 0 <= x < j ==> #[trigger] fee_levels@[x] == percentile_of(fees@, filter.levels@[x]),
                decreases filter.levels@.len() - j,
            {
                fee_levels.push(RecentPrioritizationFeesSlot::get_percentile(fees.as_slice(), filter.levels[j]));
                j = j + 1;
            }
            assert(sorted(fees@) && fees@.to_multiset() == filtered.to_multiset());
        }
        SlotsSubscribeOutput::Slot {
            identity: pubkey_text(&self.identity),
            slot: self.slot,
            hash: hash_text(&self.hash),
            time: self.time,
            height: self.height,
            total_transactions_filtered,
            total_transactions_vote: self.total_transactions_vote,
            total_transactions: txs.len(),
            fee_sum: sum,
            fee_levels,
            total_fee: self.total_fee,
            total_units_consumed: self.total_units_consumed,
        }
    }
}

/// With no required accounts, every non-vote transaction of a slot is
/// counted by the filter.
pub proof fn lemma_empty_filter_counts_nonvote(filter: SlotSubscribeFilter, txs: Seq<GeyserTransaction>)
    requires
        filter.read_write@.len() == 0,
        filter.read_only@.len() == 0,
    ensures
        filter.filtered_fees(txs).len() + vote_count(txs) == txs.len(),
    decreases txs.len(),
{
    if txs.len() > 0 {
        lemma_empty_filter_counts_nonvote(filter, txs.drop_last());
    }
}

} // verus!

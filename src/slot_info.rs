//! Per-slot snapshot with precomputed aggregates, and subscriber filtering.
use vstd::prelude::*;
use std::sync::Arc;
use crate::fees::RecentPrioritizationFeesSlot;
use crate::geyser::{CommitmentLevel, GeyserTransaction};
use crate::keys::Pubkey;

verus! {

/// Number of vote transactions.
pub open spec fn vote_count(txs: Seq<GeyserTransaction>) -> nat
    decreases txs.len(),
{
    if txs.len() == 0 {
        0
    } else {
        vote_count(txs.drop_last()) + if txs.last().vote {
            1nat
        } else {
            0nat
        }
    }
}

/// Sum of the fees of all transactions.
pub open spec fn fee_total(txs: Seq<GeyserTransaction>) -> nat
    decreases txs.len(),
{
    if txs.len() == 0 {
        0
    } else {
        fee_total(txs.drop_last()) + txs.last().fee as nat
    }
}

/// Units consumed by a transaction, 0 when unknown.
pub open spec fn units_of(tx: GeyserTransaction) -> nat {
    match tx.units_consumed {
        Some(u) => u as nat,
        None => 0,
    }
}

/// Sum of the units consumed by all transactions.
pub open spec fn units_total(txs: Seq<GeyserTransaction>) -> nat
    decreases txs.len(),
{
    if txs.len() == 0 {
        0
    } else {
        units_total(txs.drop_last()) + units_of(txs.last())
    }
}

/// `n`, or `u64::MAX` if it does not fit.
pub open spec fn saturate(n: nat) -> u64 {
    if n <= u64::MAX {
        n as u64
    } else {
        u64::MAX
    }
}

/// Relies on `Arc::clone`: a second handle to the same value.
#[verifier::external_body]
fn share<T>(a: &Arc<T>) -> (r: Arc<T>)
    ensures
        r == *a,
{
    Arc::clone(a)
}

/// One slot of the recent window.
#[derive(Debug)]
pub struct StreamsSlotInfo {
    pub identity: Pubkey,
    pub slot: u64,
    pub commitment: CommitmentLevel,
    pub hash: [u8; 32],
    pub time: i64,
    pub height: u64,
    pub transactions: Arc<Vec<GeyserTransaction>>,
    pub total_transactions_vote: usize,
    pub fees: Arc<RecentPrioritizationFeesSlot>,
    pub total_fee: u64,
    pub total_units_consumed: u64,
}

impl StreamsSlotInfo {
    /// The aggregates and the fee index agree with the transactions.
    pub open spec fn wf(&self) -> bool {
        let txs = self.transactions@;
        &&& self.total_transactions_vote == vote_count(txs)
        &&& self.total_fee == saturate(fee_total(txs))
        &&& self.total_units_consumed == saturate(units_total(txs))
        &&& self.fees.wf()
        &&& self.fees.built_from(txs)
    }

    /// Builds the snapshot of a newly ingested slot, at commitment Processed.
    pub fn new(slot: u64, hash: [u8; 32], time: i64, height: u64, transactions: Vec<GeyserTransaction>) -> (r: Self)
        ensures
            r.wf(),
            r.slot == slot,
            r.hash == hash,
            r.time == time,
            r.height == height,
            r.commitment == CommitmentLevel::Processed,
            r.transactions@ == transactions@,
            r.identity@ == Seq::new(32, |i: int| 0u8),
    {
        let mut votes: usize = 0;
        let mut fee_sum: u128 = 0;
        let mut units_sum: u128 = 0;
        let mut i: usize = 0;
        while i < transactions.len()
            invariant
                0 <= i <= transactions@.len(),
                votes == vote_count(transactions@.take(i as int)),
                fee_sum == fee_total(transactions@.take(i as int)),
                units_sum == units_total(transactions@.take(i as int)),
                votes <= i,
                fee_sum <= i * 0xffff_ffff_ffff_ffffu128,
                units_sum <= i * 0xffff_ffff_ffff_ffffu128,
            decreases transactions@.len() - i,
        {
            let tx = &transactions[i];
            proof {
                assert(transactions@.take(i + 1).drop_last() =~= transactions@.take(i as int));
                assert(i < 0x1_0000_0000_0000_0000u128);
                assert((i + 1) * 0xffff_ffff_ffff_ffffu128 == i * 0xffff_ffff_ffff_ffffu128 + 0xffff_ffff_ffff_ffffu128) by (nonlinear_arith);
                assert((i + 1) * 0xffff_ffff_ffff_ffffu128 <= 0x1_0000_0000_0000_0000u128 * 0xffff_ffff_ffff_ffffu128) by (nonlinear_arith)
                    requires i < 0x1_0000_0000_0000_0000u128;
            }
            if tx.vote {
                votes = votes + 1;
            }
            fee_sum = fee_sum + tx.fee as u128;
            let units: u64 = match tx.units_consumed {
                Some(u) => u,
                None => 0,
            };
            units_sum = units_sum + units as u128;
            i = i + 1;
        }
        proof {
            assert(transactions@.take(transactions@.len() as int) =~= transactions@);
        }
        let fees = RecentPrioritizationFeesSlot::create(transactions.as_slice());
        let total_fee: u64 = if fee_sum <= u64::MAX as u128 { fee_sum as u64 } else { u64::MAX };
        let total_units_consumed: u64 = if units_sum <= u64::MAX as u128 { units_sum as u64 } else { u64::MAX };
        let identity = Pubkey::new_from_array([0u8; 32]);
        proof {
            assert(identity@ =~= Seq::new(32, |i: int| 0u8));
        }
        StreamsSlotInfo {
            identity,
            slot,
            commitment: CommitmentLevel::Processed,
            hash,
            time,
            height,
            transactions: Arc::new(transactions),
            total_transactions_vote: votes,
            fees: Arc::new(fees),
            total_fee,
            total_units_consumed,
        }
    }

    /// A copy that shares the transactions and the fee index.
    pub fn share(&self) -> (r: Self)
        ensures
            r == *self,
    {
        StreamsSlotInfo {
            identity: self.identity,
            slot: self.slot,
            commitment: self.commitment,
            hash: self.hash,
            time: self.time,
            height: self.height,
            transactions: share(&self.transactions),
            total_transactions_vote: self.total_transactions_vote,
            fees: share(&self.fees),
            total_fee: self.total_fee,
            total_units_consumed: self.total_units_consumed,
        }
    }
}

} // verus!

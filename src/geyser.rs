//! Events of the upstream slot feed.
use vstd::prelude::*;
use crate::keys::Pubkey;

verus! {

/// Confidence tag of a slot, ordered Processed < Confirmed < Finalized.
#[derive(Clone, Copy, Debug, PartialEq, Eq, Structural)]
pub enum CommitmentLevel {
    Processed,
    Confirmed,
    Finalized,
}

impl CommitmentLevel {
    /// Position in the order Processed < Confirmed < Finalized.
    pub open spec fn rank(self) -> int {
        match self {
            CommitmentLevel::Processed => 0,
            CommitmentLevel::Confirmed => 1,
            CommitmentLevel::Finalized => 2,
        }
    }
}

/// Accounts of a transaction, each list sorted ascending.
#[derive(Clone, Debug)]
pub struct TransactionAccounts {
    pub writable: Vec<Pubkey>,
    pub readable: Vec<Pubkey>,
}

/// Summary of one transaction included in a slot.
#[derive(Clone, Debug)]
pub struct GeyserTransaction {
    pub vote: bool,
    /// Fee in lamports.
    pub fee: u64,
    /// Micro-lamports per compute unit.
    pub unit_price: u64,
    pub units_consumed: Option<u64>,
    pub accounts: TransactionAccounts,
}

/// One event of the upstream feed.
#[derive(Clone, Debug)]
pub enum GeyserMessage {
    Status { slot: u64, commitment: CommitmentLevel },
    Slot {
        slot: u64,
        hash: [u8; 32],
        time: i64,
        height: u64,
        parent_slot: u64,
        parent_hash: [u8; 32],
        transactions: Vec<GeyserTransaction>,
    },
}

} // verus!

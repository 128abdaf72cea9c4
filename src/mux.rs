//! Request multiplexing: validation of parsed calls, the batch handed to the
//! single writer, and the splice of its answers back into call order.
use vstd::prelude::*;
use crate::geyser::CommitmentLevel;
use crate::keys::{decode_all, parse_pubkeys, Pubkey, PubkeyError};
use crate::state::RpcRequest;
use crate::subscription::MAX_TX_ACCOUNT_LOCKS;

verus! {

/// Parameter dialect of the endpoint.
#[derive(Clone, Copy, Debug, PartialEq, Eq, Structural)]
pub enum SolanaRpcMode {
    /// Solana-compatible parameters.
    Solana,
    /// Adds `rollback` and `percentile`.
    Triton,
}

/// Extended configuration of `getRecentPrioritizationFees`.
#[derive(Clone, Debug, Default, PartialEq, Eq, Structural)]
pub struct RpcRecentPrioritizationFeesConfigTriton {
    pub percentile: Option<u16>,
}

/// Extended configuration of `getLatestBlockhash`.
#[derive(Clone, Copy, Debug, Default, PartialEq, Eq, Structural)]
pub struct RpcLatestBlockhashConfigTriton {
    pub commitment: Option<CommitmentLevel>,
    pub min_context_slot: Option<u64>,
    pub rollback: usize,
}

/// One call of a request body, after its envelope and parameters were read.
#[derive(Clone, Debug)]
pub enum ParsedCall {
    /// A notification or a malformed call.
    InvalidRequest,
    /// The parameters did not parse; the text says why.
    InvalidParams(String),
    LatestBlockhash { commitment: CommitmentLevel, rollback: usize, min_context_slot: Option<u64> },
    RecentPrioritizationFees { pubkeys: Option<Vec<String>>, percentile: Option<u16> },
    Slot { commitment: CommitmentLevel, min_context_slot: Option<u64> },
    Version,
    UnknownMethod,
}

/// Why a call is answered with a failure without reaching the state.
#[derive(Clone, Debug)]
pub enum CallFailure {
    InvalidRequest,
    InvalidParams(String),
    TooManyInputs,
    InvalidPubkey(PubkeyError),
    PercentileTooLarge,
    MethodNotFound,
}

/// How one call is answered.
#[derive(Clone, Debug)]
pub enum CallPlan {
    /// A failure produced on the spot.
    Local(CallFailure),
    /// The version stamp, produced on the spot.
    Version,
    /// A query for the state.
    Remote(RpcRequest),
}

/// Where an output of the response comes from.
#[derive(Clone, Copy, Debug, PartialEq, Eq, Structural)]
pub enum OutputSource {
    /// The call's own local output.
    Local,
    /// The state's answer at this position of the batch.
    Remote(usize),
}

/// The request refused as a whole.
#[derive(Clone, Copy, Debug, PartialEq, Eq, Structural)]
pub enum BatchError {
    /// More calls than one request may hold.
    TooManyCalls { max: usize },
}

/// The keys of `getRecentPrioritizationFees`, parsed and checked.
pub fn verify_pubkeys(pubkey_strs: &Option<Vec<String>>) -> (r: Result<Vec<Pubkey>, CallFailure>)
    ensures
        match *pubkey_strs {
            None => r matches Ok(v) && v@.len() == 0,
            Some(strs) => if strs@.len() > MAX_TX_ACCOUNT_LOCKS {
                r matches Err(CallFailure::TooManyInputs)
            } else {
                match decode_all(strs@) {
                    Some(ks) => r matches Ok(v) && v@.map_values(|k: Pubkey| k@) == ks,
                    None => r matches Err(CallFailure::InvalidPubkey(_)),
                }
            },
        },
{
    match pubkey_strs {
        None => Ok(Vec::new()),
        Some(strs) => {
            if strs.len() > MAX_TX_ACCOUNT_LOCKS {
                return Err(CallFailure::TooManyInputs);
            }
            match parse_pubkeys(&strs) {
                Ok(ks) => Ok(ks),
                Err((_, e)) => Err(CallFailure::InvalidPubkey(e)),
            }
        },
    }
}

/// Whether `r` is how `call` is answered under `mode`.
pub open spec fn planned(mode: SolanaRpcMode, call: ParsedCall, r: CallPlan) -> bool {
    match call {
        ParsedCall::InvalidRequest => r matches CallPlan::Local(CallFailure::InvalidRequest),
        ParsedCall::InvalidParams(m) => r matches CallPlan::Local(CallFailure::InvalidParams(m2)) && m2@ == m@,
        ParsedCall::LatestBlockhash { commitment, rollback, min_context_slot } => r == CallPlan::Remote(
            RpcRequest::LatestBlockhash {
                commitment,
                rollback: if mode == SolanaRpcMode::Triton { rollback } else { 0 },
                min_context_slot,
            },
        ),
        ParsedCall::RecentPrioritizationFees { pubkeys, percentile } => match pubkeys {
            Some(strs) if strs@.len() > MAX_TX_ACCOUNT_LOCKS => r matches CallPlan::Local(CallFailure::TooManyInputs),
            Some(strs) if decode_all(strs@) is None => r matches CallPlan::Local(CallFailure::InvalidPubkey(_)),
            _ => if mode == SolanaRpcMode::Triton && percentile is Some && percentile->0 > 10_000 {
                r matches CallPlan::Local(CallFailure::PercentileTooLarge)
            } else {
                r matches CallPlan::Remote(RpcRequest::RecentPrioritizationFees { pubkeys: keys, percentile: q })
                    && q == (if mode == SolanaRpcMode::Triton { percentile } else { None })
                    && keys@.map_values(|k: Pubkey| k@) == match pubkeys {
                        Some(strs) => decode_all(strs@)->0,
                        None => Seq::empty(),
                    }
            },
        },
        ParsedCall::Slot { commitment, min_context_slot } => r == CallPlan::Remote(
            RpcRequest::Slot { commitment, min_context_slot },
        ),
        ParsedCall::Version => r matches CallPlan::Version,
        ParsedCall::UnknownMethod => r matches CallPlan::Local(CallFailure::MethodNotFound),
    }
}

/// Decides how one call is answered: a local failure, the version stamp,
/// or a query for the state. The extended dialect keeps `rollback` and
/// `percentile` (at most 10000); the standard one drops them.
pub fn plan_call(mode: SolanaRpcMode, call: &ParsedCall) -> (r: CallPlan)
    ensures
        planned(mode, *call, r),
{
    match call {
        ParsedCall::InvalidRequest => CallPlan::Local(CallFailure::InvalidRequest),
        ParsedCall::InvalidParams(m) => CallPlan::Local(CallFailure::InvalidParams(m.clone())),
        ParsedCall::LatestBlockhash { commitment, rollback, min_context_slot } => {
            let rollback = match mode {
                SolanaRpcMode::Triton => *rollback,
                SolanaRpcMode::Solana => 0,
            };
            CallPlan::Remote(RpcRequest::LatestBlockhash { commitment: *commitment, rollback, min_context_slot: *min_context_slot })
        },
        ParsedCall::RecentPrioritizationFees { pubkeys, percentile } => {
            let keys = match verify_pubkeys(pubkeys) {
                Ok(keys) => {
                    proof {
                        if pubkeys is None {
                            assert(keys@.map_values(|k: Pubkey| k@) =~= Seq::<Seq<u8>>::empty());
                        }
                    }
                    keys
                },
                Err(e) => {
                    return CallPlan::Local(e);
                },
            };
            let percentile = match mode {
                SolanaRpcMode::Triton => {
                    match percentile {
                        Some(p) => if *p > 10_000 {
                            return CallPlan::Local(CallFailure::PercentileTooLarge);
                        },
                        None => {},
                    }
                    *percentile
                },
                SolanaRpcMode::Solana => None,
            };
            CallPlan::Remote(RpcRequest::RecentPrioritizationFees { pubkeys: keys, percentile })
        },
        ParsedCall::Slot { commitment, min_context_slot } => {
            CallPlan::Remote(RpcRequest::Slot { commitment: *commitment, min_context_slot: *min_context_slot })
        },
        ParsedCall::Version => CallPlan::Version,
        ParsedCall::UnknownMethod => CallPlan::Local(CallFailure::MethodNotFound),
    }
}

/// An output produced without the state.
#[derive(Clone, Debug)]
pub enum LocalOutput {
    Failure(CallFailure),
    Version,
}

/// Number of calls before position `i` that go to the state.
pub open spec fn remote_rank(locals: Seq<Option<LocalOutput>>, i: int) -> nat
    decreases i,
{
    if i <= 0 {
        0
    } else {
        remote_rank(locals, i - 1) + if locals[i - 1] is None {
            1nat
        } else {
            0nat
        }
    }
}

/// The plan that position `i` of a split request stands for.
pub open spec fn plan_at(locals: Seq<Option<LocalOutput>>, requests: Seq<RpcRequest>, i: int) -> CallPlan {
    match locals[i] {
        None => CallPlan::Remote(requests[remote_rank(locals, i) as int]),
        Some(LocalOutput::Failure(f)) => CallPlan::Local(f),
        Some(LocalOutput::Version) => CallPlan::Version,
    }
}

/// Plans every call of a request of at most `request_calls_max` calls:
/// one slot per call, holding its local output or nothing, and the queries
/// for the state in call order.
pub fn plan_calls(mode: SolanaRpcMode, calls: &Vec<ParsedCall>, request_calls_max: usize) -> (r: Result<(Vec<Option<LocalOutput>>, Vec<RpcRequest>), BatchError>)
    ensures
        calls@.len() > request_calls_max <==> (r is Err),
        r matches Err(e) ==> e == (BatchError::TooManyCalls { max: request_calls_max }),
        r matches Ok((locals, requests)) ==> {
            &&& locals@.len() == calls@.len()
            &&& requests@.len() == remote_rank(locals@, locals@.len() as int)
            &&& forall|i: int| 0 <= i < calls@.len() ==> planned(mode, calls@[i], #[trigger] plan_at(locals@, requests@, i))
        },
{
    if calls.len() > request_calls_max {
        return Err(BatchError::TooManyCalls { max: request_calls_max });
    }
    let mut locals: Vec<Option<LocalOutput>> = Vec::new();
    let mut requests: Vec<RpcRequest> = Vec::new();
    let mut i: usize = 0;
    while i < calls.len()
        invariant
            0 <= i <= calls@.len(),
            locals@.len() == i,
            requests@.len() == remote_rank(locals@, i as int),
            forall|j: int| 0 <= j < i ==> planned(mode, calls@[j], #[trigger] plan_at(locals@, requests@, j)),
        decreases calls@.len() - i,
    {
        let ghost prev_locals = locals@;
        let ghost prev_requests = requests@;
        let plan = plan_call(mode, &calls[i]);
        let ghost planned_here = plan;
        match plan {
            CallPlan::Remote(q) => {
                locals.push(None);
                requests.push(q);
                proof {
                    lemma_rank_prefix(locals@, prev_locals, i as int);
                    assert(plan_at(locals@, requests@, i as int) == CallPlan::Remote(q));
                }
            },
            CallPlan::Local(f) => {
                locals.push(Some(LocalOutput::Failure(f)));
                assert(plan_at(locals@, requests@, i as int) == planned_here);
            },
            CallPlan::Version => {
                locals.push(Some(LocalOutput::Version));
                assert(plan_at(locals@, requests@, i as int) == planned_here);
            },
        }
        proof {
            lemma_rank_prefix(locals@, prev_locals, i as int);
            assert(remote_rank(locals@, i + 1) == remote_rank(locals@, i as int) + if locals@[i as int] is None {
                1nat
            } else {
                0nat
            });
            assert forall|j: int| 0 <= j <= i implies remote_rank(locals@, j) == remote_rank(prev_locals, j) by {
                lemma_rank_prefix(locals@, prev_locals, j);
            }
            assert forall|j: int| 0 <= j < i implies plan_at(locals@, requests@, j) == plan_at(prev_locals, prev_requests, j) by {
                if locals@[j] is None {
                    lemma_rank_below(prev_locals, j);
                }
            }
            assert(planned(mode, calls@[i as int], planned_here));
            assert(planned(mode, calls@[i as int], plan_at(locals@, requests@, i as int)));
            assert forall|j: int| 0 <= j < i implies planned(mode, calls@[j], #[trigger] plan_at(locals@, requests@, j)) by {
                assert(planned(mode, calls@[j], plan_at(prev_locals, prev_requests, j)));
            }
        }
        i = i + 1;
    }
    Ok((locals, requests))
}

/// Ranks depend only on the positions before.
proof fn lemma_rank_prefix(a: Seq<Option<LocalOutput>>, b: Seq<Option<LocalOutput>>, j: int)
    requires
        0 <= j <= b.len(),
        b.len() <= a.len(),
        forall|x: int| 0 <= x < b.len() ==> a[x] == b[x],
    ensures
        remote_rank(a, j) == remote_rank(b, j),
    decreases j,
{
    if j > 0 {
        lemma_rank_prefix(a, b, j - 1);
    }
}

/// A position that goes to the state ranks below the total.
proof fn lemma_rank_below(locals: Seq<Option<LocalOutput>>, j: int)
    requires
        0 <= j < locals.len(),
        locals[j] is None,
    ensures
        remote_rank(locals, j) < remote_rank(locals, locals.len() as int),
    decreases locals.len() - j,
{
    lemma_rank_mono(locals, j + 1, locals.len() as int);
}

proof fn lemma_rank_le(locals: Seq<Option<LocalOutput>>, i: int)
    requires
        0 <= i <= locals.len(),
    ensures
        remote_rank(locals, i) <= i,
    decreases i,
{
    if i > 0 {
        lemma_rank_le(locals, i - 1);
    }
}

proof fn lemma_rank_mono(locals: Seq<Option<LocalOutput>>, a: int, b: int)
    requires
        0 <= a <= b <= locals.len(),
    ensures
        remote_rank(locals, a) <= remote_rank(locals, b),
    decreases b - a,
{
    if a < b {
        lemma_rank_mono(locals, a, b - 1);
    }
}

/// Where each output of the response comes from: its local output, or the
/// state's answer of the same rank. Absent unless the state answered
/// exactly as many queries as there are empty slots.
pub fn splice_order(locals: &Vec<Option<LocalOutput>>, answered: usize) -> (r: Option<Vec<OutputSource>>)
    ensures
        (r is Some) <==> answered == remote_rank(locals@, locals@.len() as int),
        r matches Some(order) ==> order@.len() == locals@.len() && forall|i: int| 0 <= i < locals@.len() ==>
            #[trigger] order@[i] == if locals@[i] is None {
                OutputSource::Remote(remote_rank(locals@, i) as usize)
            } else {
                OutputSource::Local
            },
{
    let mut order: Vec<OutputSource> = Vec::new();
    let mut next: usize = 0;
    let mut i: usize = 0;
    while i < locals.len()
        invariant
            0 <= i <= locals@.len(),
            next == remote_rank(locals@, i as int),
            next <= i,
            order@.len() == i,
            forall|j: int| 0 <= j < i ==> #[trigger] order@[j] == if locals@[j] is None {
                OutputSource::Remote(remote_rank(locals@, j) as usize)
            } else {
                OutputSource::Local
            },
        decreases locals@.len() - i,
    {
        if locals[i].is_none() {
            if next >= answered {
                proof {
                    lemma_rank_mono(locals@, i + 1, locals@.len() as int);
                }
                return None;
            }
            order.push(OutputSource::Remote(next));
            next = next + 1;
        } else {
            order.push(OutputSource::Local);
        }
        i = i + 1;
    }
    if next != answered {
        return None;
    }
    Some(order)
}

/// Batch order: after planning and splicing, the output at position `i` is
/// the call's own local output, or the state's answer to exactly the query
/// planned for call `i`; the response has one output per call.
pub proof fn lemma_batch_order(
    mode: SolanaRpcMode,
    calls: Seq<ParsedCall>,
    locals: Seq<Option<LocalOutput>>,
    requests: Seq<RpcRequest>,
    order: Seq<OutputSource>,
)
    requires
        locals.len() == calls.len(),
        locals.len() <= usize::MAX,
        requests.len() == remote_rank(locals, locals.len() as int),
        forall|i: int| 0 <= i < calls.len() ==> planned(mode, calls[i], #[trigger] plan_at(locals, requests, i)),
        order.len() == locals.len(),
        forall|i: int| 0 <= i < locals.len() ==> #[trigger] order[i] == if locals[i] is None {
            OutputSource::Remote(remote_rank(locals, i) as usize)
        } else {
            OutputSource::Local
        },
    ensures
        order.len() == calls.len(),
        forall|i: int| 0 <= i < calls.len() ==> match #[trigger] order[i] {
            OutputSource::Remote(k) => k < requests.len() && planned(mode, calls[i], CallPlan::Remote(requests[k as int])),
            OutputSource::Local => locals[i] is Some,
        },
{
    assert forall|i: int| 0 <= i < calls.len() implies match #[trigger] order[i] {
        OutputSource::Remote(k) => k < requests.len() && planned(mode, calls[i], CallPlan::Remote(requests[k as int])),
        OutputSource::Local => locals[i] is Some,
    } by {
        if locals[i] is None {
            lemma_rank_below(locals, i);
            lemma_rank_mono(locals, i, locals.len() as int);
            lemma_rank_le(locals, locals.len() as int);
            assert(plan_at(locals, requests, i) == CallPlan::Remote(requests[remote_rank(locals, i) as int]));
        }
    }
}

} // verus!

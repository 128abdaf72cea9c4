use solfees_be::blockhash::{LatestBlockhashStorage, LookupError};
use solfees_be::fees::RecentPrioritizationFeesSlot;
use solfees_be::geyser::{CommitmentLevel, GeyserMessage, GeyserTransaction, TransactionAccounts};
use solfees_be::keys::{Pubkey, PubkeyError};
use solfees_be::mux::{
    plan_calls, splice_order, verify_pubkeys, BatchError, CallFailure, CallPlan, LocalOutput, OutputSource,
    ParsedCall, SolanaRpcMode,
};
use solfees_be::state::{RpcRequest, RpcResult, RpcUpdateState, StreamsUpdateMessage};
use solfees_be::stream::{
    on_broadcast_error, on_call, on_frame, on_update, CloseReason, InboundCall, InboundFrame, StreamAction, SubscribeParams,
    SubscribeReply,
};
use solfees_be::subscription::{FilterError, ReqParamsSlotsSubscribeConfig, SlotSubscribeFilter, SlotsSubscribeOutput};
use solfees_be::slot_info::StreamsSlotInfo;

const ZERO_KEY_TEXT: &str = "11111111111111111111111111111111";

fn key(b: u8) -> Pubkey {
    Pubkey::new_from_array([b; 32])
}

fn tx(vote: bool, fee: u64, unit_price: u64, writable: Vec<Pubkey>, readable: Vec<Pubkey>) -> GeyserTransaction {
    GeyserTransaction {
        vote,
        fee,
        unit_price,
        units_consumed: Some(10),
        accounts: TransactionAccounts { writable, readable },
    }
}

fn slot_msg(slot: u64, height: u64, hash: [u8; 32], transactions: Vec<GeyserTransaction>) -> GeyserMessage {
    GeyserMessage::Slot { slot, hash, time: 1_700_000_000, height, parent_slot: slot.saturating_sub(1), parent_hash: [0; 32], transactions }
}

fn status_msg(slot: u64, commitment: CommitmentLevel) -> GeyserMessage {
    GeyserMessage::Status { slot, commitment }
}

fn blockhash_req(commitment: CommitmentLevel, rollback: usize) -> RpcRequest {
    RpcRequest::LatestBlockhash { commitment, rollback, min_context_slot: None }
}

fn fees_of(r: Result<RpcResult, LookupError>) -> Vec<(u64, u64)> {
    match r {
        Ok(RpcResult::RecentPrioritizationFees(v)) => v.iter().map(|f| (f.slot, f.prioritization_fee)).collect(),
        other => panic!("unexpected answer {:?}", other),
    }
}

#[test]
fn percentile_reads_floor_index() {
    let v = vec![10u64, 20, 30, 40];
    assert_eq!(RecentPrioritizationFeesSlot::get_percentile(&v, 0), Some(10));
    assert_eq!(RecentPrioritizationFeesSlot::get_percentile(&v, 5000), Some(30));
    assert_eq!(RecentPrioritizationFeesSlot::get_percentile(&v, 2499), Some(10));
    assert_eq!(RecentPrioritizationFeesSlot::get_percentile(&v, 2500), Some(20));
    assert_eq!(RecentPrioritizationFeesSlot::get_percentile(&v, 10000), Some(40));
    assert_eq!(RecentPrioritizationFeesSlot::get_percentile(&v, u16::MAX), Some(40));
    assert_eq!(RecentPrioritizationFeesSlot::get_percentile(&[], 5000), None);
}

#[test]
fn percentile_absent_means_minimum() {
    let v = vec![7u64, 8, 9];
    assert_eq!(RecentPrioritizationFeesSlot::get_with_percentile(&v, None), Some(7));
    assert_eq!(RecentPrioritizationFeesSlot::get_with_percentile(&v, Some(9999)), Some(9));
    assert_eq!(RecentPrioritizationFeesSlot::get_with_percentile(&[], None), None);
}

#[test]
fn fee_index_sorts_and_takes_account_maximum() {
    let a = key(1);
    let b = key(2);
    let txs = vec![
        tx(false, 5000, 40, vec![a], vec![]),
        tx(false, 5000, 10, vec![b], vec![]),
        tx(true, 5000, 1000, vec![a], vec![]),
        tx(false, 5000, 30, vec![a, b], vec![]),
        tx(false, 5000, 20, vec![], vec![a]),
    ];
    let index = RecentPrioritizationFeesSlot::create(&txs);
    assert_eq!(index.transaction_fees, vec![10, 20, 30, 40]);
    // global minimum is 10; account a's prices are [30, 40]
    assert_eq!(index.get_fee(&[], None), 10);
    assert_eq!(index.get_fee(&[a], None), 30);
    assert_eq!(index.get_fee(&[b], None), 10);
    assert_eq!(index.get_fee(&[b, a], Some(5000)), 40);
    // an unknown account adds nothing
    assert_eq!(index.get_fee(&[key(9)], Some(5000)), 30);
}

#[test]
fn fee_never_below_global_percentile() {
    let a = key(1);
    let txs = vec![tx(false, 0, 100, vec![], vec![]), tx(false, 0, 5, vec![a], vec![]), tx(false, 0, 50, vec![], vec![])];
    let index = RecentPrioritizationFeesSlot::create(&txs);
    for p in [None, Some(0u16), Some(5000), Some(10000)] {
        let global = RecentPrioritizationFeesSlot::get_with_percentile(&index.transaction_fees, p).unwrap_or(0);
        assert!(index.get_fee(&[a], p) >= global);
    }
    let empty = RecentPrioritizationFeesSlot::create(&[]);
    assert_eq!(empty.get_fee(&[a], Some(5000)), 0);
}

#[test]
fn finalized_slot_answers_latest_blockhash() {
    let mut state = RpcUpdateState::new();
    state.apply_event(slot_msg(100, 50, [0; 32], vec![]));
    state.apply_event(status_msg(100, CommitmentLevel::Finalized));
    match state.answer(&blockhash_req(CommitmentLevel::Finalized, 0)) {
        Ok(RpcResult::LatestBlockhash { slot, blockhash, last_valid_block_height }) => {
            assert_eq!(slot, 100);
            assert_eq!(blockhash, ZERO_KEY_TEXT);
            assert_eq!(last_valid_block_height, 350);
        }
        other => panic!("unexpected answer {:?}", other),
    }
}

#[test]
fn rollback_past_single_slot_fails() {
    let mut state = RpcUpdateState::new();
    state.apply_event(slot_msg(100, 50, [1; 32], vec![]));
    state.apply_event(status_msg(100, CommitmentLevel::Finalized));
    assert!(matches!(state.answer(&blockhash_req(CommitmentLevel::Finalized, 1)), Err(LookupError::RollbackFailed)));
    assert!(matches!(state.answer(&blockhash_req(CommitmentLevel::Finalized, 301)), Err(LookupError::RollbackTooLarge)));
}

#[test]
fn rollback_walks_to_earlier_slot_of_same_commitment() {
    let mut store = LatestBlockhashStorage::new();
    for s in 10..=14u64 {
        store.push_block(s, s + 1000, [s as u8; 32]);
    }
    store.update_commitment(10, CommitmentLevel::Confirmed);
    store.update_commitment(12, CommitmentLevel::Confirmed);
    store.update_commitment(14, CommitmentLevel::Confirmed);
    let a = store.get_latest_blockhash(CommitmentLevel::Confirmed, 1, None).unwrap();
    assert_eq!(a.slot, 12);
    assert_eq!(a.hash, [12; 32]);
    assert_eq!(a.last_valid_block_height, 1312);
    assert_eq!(store.get_latest_blockhash(CommitmentLevel::Confirmed, 2, None).unwrap().slot, 10);
    assert_eq!(store.get_latest_blockhash(CommitmentLevel::Confirmed, 3, None).unwrap_err(), LookupError::RollbackFailed);
    assert_eq!(
        store.get_latest_blockhash(CommitmentLevel::Confirmed, 0, Some(15)).unwrap_err(),
        LookupError::MinContextSlotNotReached { context_slot: 14 }
    );
    assert_eq!(store.get_slot(CommitmentLevel::Confirmed, Some(14)), Ok(14));
    assert_eq!(store.get_slot(CommitmentLevel::Finalized, None), Ok(0));
    assert_eq!(store.get_latest_blockhash(CommitmentLevel::Finalized, 0, None).unwrap_err(), LookupError::SlotMissing);
}

#[test]
fn processed_latest_only_advances() {
    let mut store = LatestBlockhashStorage::new();
    store.push_block(20, 1, [0; 32]);
    store.push_block(19, 1, [0; 32]);
    store.update_commitment(20, CommitmentLevel::Processed);
    store.update_commitment(19, CommitmentLevel::Processed);
    assert_eq!(store.slot_processed, 20);
    store.update_commitment(21, CommitmentLevel::Confirmed);
    assert_eq!(store.slot_confirmed, 0);
}

#[test]
fn finalized_entries_are_bounded() {
    let mut store = LatestBlockhashStorage::new();
    for s in 0..400u64 {
        store.push_block(s, s, [0; 32]);
        store.update_commitment(s, CommitmentLevel::Finalized);
    }
    assert_eq!(store.finalized_total, 310);
    assert_eq!(store.slots.len(), 310);
    assert_eq!(store.slots[0].0, 90);
    assert_eq!(store.slot_finalized, 399);
}

#[test]
fn recent_fees_per_dialect() {
    let mut state = RpcUpdateState::new();
    let first: Vec<GeyserTransaction> = [10u64, 20, 30, 40].iter().map(|p| tx(false, 0, *p, vec![], vec![])).collect();
    let second: Vec<GeyserTransaction> = [5u64, 50, 500].iter().map(|p| tx(false, 0, *p, vec![], vec![])).collect();
    state.apply_event(slot_msg(100, 1, [0; 32], first));
    state.apply_event(slot_msg(101, 2, [0; 32], second));
    state.apply_event(status_msg(100, CommitmentLevel::Finalized));
    state.apply_event(status_msg(101, CommitmentLevel::Finalized));

    let standard = vec![ParsedCall::RecentPrioritizationFees { pubkeys: Some(vec![]), percentile: Some(5000) }];
    let (_, requests) = plan_calls(SolanaRpcMode::Solana, &standard, 10).unwrap();
    assert_eq!(fees_of(state.answer(&requests[0])), vec![(100, 10), (101, 5)]);

    let extended = vec![ParsedCall::RecentPrioritizationFees { pubkeys: None, percentile: Some(5000) }];
    let (_, requests) = plan_calls(SolanaRpcMode::Triton, &extended, 10).unwrap();
    assert_eq!(fees_of(state.answer(&requests[0])), vec![(100, 30), (101, 50)]);
}

#[test]
fn window_keeps_largest_slots() {
    let mut state = RpcUpdateState::new();
    for s in (0..200u64).rev() {
        state.apply_event(slot_msg(s, s, [0; 32], vec![]));
    }
    state.apply_event(slot_msg(1000, 1, [0; 32], vec![]));
    state.apply_event(slot_msg(3, 1, [0; 32], vec![]));
    let slots: Vec<u64> = state.recent.infos.iter().map(|i| i.slot).collect();
    assert_eq!(slots.len(), 150);
    let expected: Vec<u64> = (51..200u64).chain(std::iter::once(1000)).collect();
    assert_eq!(slots, expected);
}

#[test]
fn slot_answer_before_ingest_is_zero() {
    let state = RpcUpdateState::new();
    assert!(matches!(state.answer(&RpcRequest::Slot { commitment: CommitmentLevel::Processed, min_context_slot: None }), Ok(RpcResult::Slot(0))));
    assert!(matches!(
        state.answer(&RpcRequest::Slot { commitment: CommitmentLevel::Processed, min_context_slot: Some(1) }),
        Err(LookupError::MinContextSlotNotReached { context_slot: 0 })
    ));
}

#[test]
fn status_updates_window_commitment() {
    let mut state = RpcUpdateState::new();
    state.apply_event(slot_msg(7, 1, [0; 32], vec![]));
    let notice = state.apply_event(status_msg(7, CommitmentLevel::Confirmed));
    assert!(matches!(notice, StreamsUpdateMessage::Status { slot: 7, commitment: CommitmentLevel::Confirmed }));
    assert_eq!(state.recent.infos[0].commitment, CommitmentLevel::Confirmed);
}

fn subscribe(read_write: Vec<String>, read_only: Vec<String>, levels: Vec<u16>) -> Result<SlotSubscribeFilter, FilterError> {
    SlotSubscribeFilter::try_from(ReqParamsSlotsSubscribeConfig { read_write, read_only, levels })
}

#[test]
fn subscription_filters_slot() {
    let filter = subscribe(vec![ZERO_KEY_TEXT.to_string()], vec![], vec![5000, 9000]).unwrap();
    let a = key(0);
    let txs = vec![
        tx(false, 100, 1, vec![a, key(3)], vec![]),
        tx(false, 300, 1, vec![a], vec![]),
        tx(false, 999, 1, vec![key(3)], vec![a]),
        tx(true, 5000, 0, vec![a], vec![]),
    ];
    let info = StreamsSlotInfo::new(42, [0; 32], 7, 9, txs);
    match info.get_filtered(&filter) {
        SlotsSubscribeOutput::Slot {
            identity,
            slot,
            total_transactions_filtered,
            total_transactions_vote,
            total_transactions,
            fee_sum,
            fee_levels,
            total_fee,
            total_units_consumed,
            ..
        } => {
            assert_eq!(identity, ZERO_KEY_TEXT);
            assert_eq!(slot, 42);
            assert_eq!(total_transactions_filtered, 2);
            assert_eq!(total_transactions_vote, 1);
            assert_eq!(total_transactions, 4);
            assert_eq!(fee_sum as f64 / total_transactions_filtered as f64, 200.0);
            assert_eq!(fee_levels, vec![Some(300), Some(300)]);
            assert_eq!(total_fee, 6399);
            assert_eq!(total_units_consumed, 40);
        }
        other => panic!("unexpected output {:?}", other),
    }
}

#[test]
fn empty_filter_counts_every_nonvote_transaction() {
    let filter = subscribe(vec![], vec![], vec![]).unwrap();
    let txs = vec![tx(false, 1, 1, vec![key(1)], vec![]), tx(true, 1, 1, vec![], vec![]), tx(false, 2, 1, vec![], vec![key(2)])];
    let info = StreamsSlotInfo::new(1, [0; 32], 0, 0, txs);
    match info.get_filtered(&filter) {
        SlotsSubscribeOutput::Slot { total_transactions_filtered, fee_levels, .. } => {
            assert_eq!(total_transactions_filtered, 2);
            assert!(fee_levels.is_empty());
        }
        other => panic!("unexpected output {:?}", other),
    }
}

#[test]
fn subscription_parameters_are_checked() {
    assert!(matches!(subscribe(vec!["0OIl".to_string()], vec![], vec![]), Err(FilterError::InvalidPubkey(s)) if s == "0OIl"));
    assert!(matches!(subscribe(vec![], vec!["bad!".to_string()], vec![]), Err(FilterError::InvalidPubkey(s)) if s == "bad!"));
    let many: Vec<String> = (0..129).map(|_| ZERO_KEY_TEXT.to_string()).collect();
    assert!(matches!(subscribe(many, vec![], vec![]), Err(FilterError::TooManyAccounts)));
    assert!(matches!(subscribe(vec![], vec![], vec![1, 2, 3, 4, 5, 6]), Err(FilterError::TooManyLevels)));
    assert!(matches!(subscribe(vec![], vec![], vec![10001]), Err(FilterError::LevelTooLarge)));
    assert!(subscribe(vec![], vec![], vec![10000]).is_ok());
}

#[test]
fn pubkeys_are_parsed_and_bounded() {
    let keys = verify_pubkeys(&Some(vec![ZERO_KEY_TEXT.to_string()])).unwrap();
    assert_eq!(keys[0].bytes, [0u8; 32]);
    let usdc = verify_pubkeys(&Some(vec!["EPjFWdd5AufqSSqeM2qN1xzybapC8G4wEGGkZwyTDt1v".to_string()])).unwrap();
    assert_ne!(usdc[0].bytes, [0u8; 32]);
    assert!(verify_pubkeys(&None).unwrap().is_empty());
    assert!(matches!(verify_pubkeys(&Some(vec!["0OIl".to_string()])), Err(CallFailure::InvalidPubkey(PubkeyError::Invalid))));
    assert!(matches!(verify_pubkeys(&Some(vec!["1".repeat(50)])), Err(CallFailure::InvalidPubkey(PubkeyError::WrongSize))));
    let many: Vec<String> = (0..129).map(|_| ZERO_KEY_TEXT.to_string()).collect();
    assert!(matches!(verify_pubkeys(&Some(many)), Err(CallFailure::TooManyInputs)));
}

#[test]
fn oversized_batch_is_refused() {
    let calls = vec![ParsedCall::Version, ParsedCall::Version, ParsedCall::Version];
    assert!(matches!(plan_calls(SolanaRpcMode::Solana, &calls, 2), Err(BatchError::TooManyCalls { max: 2 })));
}

#[test]
fn batch_outputs_keep_call_order() {
    let calls = vec![
        ParsedCall::Slot { commitment: CommitmentLevel::Confirmed, min_context_slot: None },
        ParsedCall::UnknownMethod,
        ParsedCall::LatestBlockhash { commitment: CommitmentLevel::Finalized, rollback: 3, min_context_slot: Some(1) },
        ParsedCall::InvalidRequest,
        ParsedCall::RecentPrioritizationFees { pubkeys: None, percentile: Some(10001) },
        ParsedCall::Version,
    ];
    let (locals, requests) = plan_calls(SolanaRpcMode::Triton, &calls, 6).unwrap();
    assert_eq!(locals.len(), 6);
    assert_eq!(requests.len(), 2);
    assert!(matches!(requests[0], RpcRequest::Slot { commitment: CommitmentLevel::Confirmed, .. }));
    assert!(matches!(requests[1], RpcRequest::LatestBlockhash { rollback: 3, .. }));
    assert!(matches!(locals[1], Some(LocalOutput::Failure(CallFailure::MethodNotFound))));
    assert!(matches!(locals[4], Some(LocalOutput::Failure(CallFailure::PercentileTooLarge))));
    assert!(matches!(locals[5], Some(LocalOutput::Version)));
    let order = splice_order(&locals, 2).unwrap();
    assert_eq!(
        order,
        vec![
            OutputSource::Remote(0),
            OutputSource::Local,
            OutputSource::Remote(1),
            OutputSource::Local,
            OutputSource::Local,
            OutputSource::Local
        ]
    );
    assert!(splice_order(&locals, 1).is_none());
    assert!(splice_order(&locals, 3).is_none());
    let (_, standard) = plan_calls(SolanaRpcMode::Solana, &calls, 6).unwrap();
    assert!(matches!(standard[1], RpcRequest::LatestBlockhash { rollback: 0, .. }));
}

#[test]
fn plans_reflect_each_call() {
    assert!(matches!(
        solfees_be::mux::plan_call(SolanaRpcMode::Solana, &ParsedCall::InvalidParams("bad".to_string())),
        CallPlan::Local(CallFailure::InvalidParams(m)) if m == "bad"
    ));
    assert!(matches!(
        solfees_be::mux::plan_call(SolanaRpcMode::Solana, &ParsedCall::RecentPrioritizationFees { pubkeys: None, percentile: Some(10001) }),
        CallPlan::Remote(RpcRequest::RecentPrioritizationFees { percentile: None, .. })
    ));
}

#[test]
fn lagging_subscriber_is_closed() {
    assert_eq!(on_broadcast_error(true), StreamAction::Close(Some(CloseReason::Lagged)));
    assert_eq!(on_broadcast_error(false), StreamAction::Close(None));
}

#[test]
fn frames_lead_to_actions() {
    assert_eq!(on_frame(InboundFrame::Text), StreamAction::HandleText);
    assert_eq!(on_frame(InboundFrame::Binary { utf8: false }), StreamAction::Close(Some(CloseReason::InvalidBinary)));
    assert_eq!(on_frame(InboundFrame::Ping), StreamAction::ReplyPong);
    assert_eq!(on_frame(InboundFrame::Pong), StreamAction::Ignore);
    assert_eq!(on_frame(InboundFrame::Close), StreamAction::Stop);
    assert_eq!(on_frame(InboundFrame::Other), StreamAction::Close(Some(CloseReason::Unsupported)));
}

#[test]
fn updates_reach_only_subscribers() {
    let filter = subscribe(vec![], vec![], vec![]).unwrap();
    let processed = StreamsUpdateMessage::Status { slot: 5, commitment: CommitmentLevel::Processed };
    let confirmed = StreamsUpdateMessage::Status { slot: 5, commitment: CommitmentLevel::Confirmed };
    assert!(on_update(&None, &confirmed).is_none());
    assert!(on_update(&Some(filter), &processed).is_none());
    let filter = subscribe(vec![], vec![], vec![]).unwrap();
    assert!(matches!(
        on_update(&Some(filter), &confirmed),
        Some(SlotsSubscribeOutput::Status { slot: 5, commitment: CommitmentLevel::Confirmed })
    ));
}

#[test]
fn config_defaults() {
    let grpc = solfees_be::config::ConfigGrpc::default();
    assert_eq!(grpc.endpoint, "http://127.0.0.1:10000");
    assert!(grpc.x_token.is_none());
    let redis = solfees_be::config::ConfigRedis::default();
    assert_eq!(redis.stream_maxlen, 10800);
    assert_eq!(redis.stream_key, "solfees:events");
    assert!(solfees_be::config::ConfigTracing::default().json);
}

#[test]
fn rollback_skips_missing_slot_numbers() {
    let mut store = LatestBlockhashStorage::new();
    for s in [98u64, 100] {
        store.push_block(s, s, [s as u8; 32]);
        store.update_commitment(s, CommitmentLevel::Finalized);
    }
    let a = store.get_latest_blockhash(CommitmentLevel::Finalized, 1, None).unwrap();
    assert_eq!(a.slot, 98);
    assert_eq!(a.hash, [98; 32]);
    assert_eq!(a.last_valid_block_height, 398);
    assert_eq!(store.get_latest_blockhash(CommitmentLevel::Finalized, 2, None).unwrap_err(), LookupError::RollbackFailed);
}

#[test]
fn subscribe_call_sets_or_keeps_filter() {
    let config = |levels: Vec<u16>| ReqParamsSlotsSubscribeConfig { read_write: vec![], read_only: vec![], levels };
    let mut active = None;
    assert!(matches!(on_call(&mut active, InboundCall::Unparsable), Err(CloseReason::InvalidMessage)));
    let other = InboundCall::Call { method: "other".to_string(), params: SubscribeParams::Parsed(config(vec![])) };
    assert!(matches!(on_call(&mut active, other), Err(CloseReason::UnknownMethod)));
    assert!(active.is_none());
    let ok = InboundCall::Call { method: "SlotsSubscribe".to_string(), params: SubscribeParams::Parsed(config(vec![5000])) };
    assert!(matches!(on_call(&mut active, ok), Ok(SubscribeReply::Subscribed)));
    assert_eq!(active.as_ref().unwrap().levels, vec![5000]);
    let bad = InboundCall::Call { method: "SlotsSubscribe".to_string(), params: SubscribeParams::Parsed(config(vec![20000])) };
    assert!(matches!(on_call(&mut active, bad), Ok(SubscribeReply::Refused(FilterError::LevelTooLarge))));
    assert_eq!(active.as_ref().unwrap().levels, vec![5000]);
    let invalid = InboundCall::Call { method: "SlotsSubscribe".to_string(), params: SubscribeParams::Invalid("oops".to_string()) };
    assert!(matches!(on_call(&mut active, invalid), Ok(SubscribeReply::InvalidParams(m)) if m == "oops"));
    let again = InboundCall::Call { method: "SlotsSubscribe".to_string(), params: SubscribeParams::Parsed(config(vec![])) };
    assert!(matches!(on_call(&mut active, again), Ok(SubscribeReply::Subscribed)));
    assert!(active.as_ref().unwrap().levels.is_empty());
}

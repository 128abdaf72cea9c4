//! Decisions of a subscriber connection's loop: what an inbound frame or a
//! broadcast update leads to.
use vstd::prelude::*;
use crate::geyser::CommitmentLevel;
use crate::slot_info::StreamsSlotInfo;
use crate::state::StreamsUpdateMessage;
use crate::keys::decode_all;
use crate::subscription::{
    filter_outcome_ok, key_views, FilterError, ReqParamsSlotsSubscribeConfig, SlotSubscribeFilter, SlotsSubscribeOutput,
};

verus! {

/// Kind of a frame read from the socket.
#[derive(Clone, Copy, Debug, PartialEq, Eq, Structural)]
pub enum InboundFrame {
    Text,
    /// A binary frame; `utf8` tells whether it decodes as UTF-8.
    Binary { utf8: bool },
    Ping,
    Pong,
    Close,
    /// Any other frame kind.
    Other,
    /// A read error.
    Error,
    /// The stream ended.
    End,
}

/// Short reason carried by a close frame.
#[derive(Clone, Copy, Debug, PartialEq, Eq, Structural)]
pub enum CloseReason {
    InvalidBinary,
    Unsupported,
    InvalidMessage,
    UnknownMethod,
    Lagged,
}

/// What the connection does next.
#[derive(Clone, Copy, Debug, PartialEq, Eq, Structural)]
pub enum StreamAction {
    /// Parse the frame's text as a call.
    HandleText,
    /// Answer a ping with a pong carrying the same data.
    ReplyPong,
    /// Read on.
    Ignore,
    /// Leave the loop without a close frame.
    Stop,
    /// Leave the loop with a close frame, with an error reason or none.
    Close(Option<CloseReason>),
}

/// Reaction to an inbound frame.
pub fn on_frame(frame: InboundFrame) -> (r: StreamAction)
    ensures
        r == match frame {
            InboundFrame::Text => StreamAction::HandleText,
            InboundFrame::Binary { utf8 } => if utf8 {
                StreamAction::HandleText
            } else {
                StreamAction::Close(Some(CloseReason::InvalidBinary))
            },
            InboundFrame::Ping => StreamAction::ReplyPong,
            InboundFrame::Pong => StreamAction::Ignore,
            InboundFrame::Close | InboundFrame::Error | InboundFrame::End => StreamAction::Stop,
            InboundFrame::Other => StreamAction::Close(Some(CloseReason::Unsupported)),
        },
{
    match frame {
        InboundFrame::Text => StreamAction::HandleText,
        InboundFrame::Binary { utf8 } => if utf8 {
            StreamAction::HandleText
        } else {
            StreamAction::Close(Some(CloseReason::InvalidBinary))
        },
        InboundFrame::Ping => StreamAction::ReplyPong,
        InboundFrame::Pong => StreamAction::Ignore,
        InboundFrame::Close | InboundFrame::Error | InboundFrame::End => StreamAction::Stop,
        InboundFrame::Other => StreamAction::Close(Some(CloseReason::Unsupported)),
    }
}

/// Reaction to a failed broadcast receive: a lagging subscriber is closed
/// with a reason, a closed channel without one.
pub fn on_broadcast_error(lagged: bool) -> (r: StreamAction)
    ensures
        r == if lagged {
            StreamAction::Close(Some(CloseReason::Lagged))
        } else {
            StreamAction::Close(None)
        },
{
    if lagged {
        StreamAction::Close(Some(CloseReason::Lagged))
    } else {
        StreamAction::Close(None)
    }
}

/// The push for a broadcast update: nothing before a subscription or for a
/// Processed status; the status itself for a later commitment; the slot
/// seen through the filter for a new slot.
pub fn on_update(filter: &Option<SlotSubscribeFilter>, update: &StreamsUpdateMessage) -> (r: Option<SlotsSubscribeOutput>)
    ensures
        match *filter {
            None => r is None,
            Some(f) => match *update {
                StreamsUpdateMessage::Status { slot, commitment } => if commitment == CommitmentLevel::Processed {
                    r is None
                } else {
                    r == Some(SlotsSubscribeOutput::Status { slot, commitment })
                },
                StreamsUpdateMessage::Slot { info } => r is Some && StreamsSlotInfo::is_filtered_view(info, f, r->0),
            },
        },
{
    match filter {
        None => None,
        Some(f) => match update {
            StreamsUpdateMessage::Status { slot, commitment } => {
                if *commitment == CommitmentLevel::Processed {
                    None
                } else {
                    Some(SlotsSubscribeOutput::Status { slot: *slot, commitment: *commitment })
                }
            },
            StreamsUpdateMessage::Slot { info } => Some(info.get_filtered(f)),
        },
    }
}

/// Parameters of a subscription call, as read from its text.
#[derive(Clone, Debug)]
pub enum SubscribeParams {
    Parsed(ReqParamsSlotsSubscribeConfig),
    /// The parameters did not parse; the text says why.
    Invalid(String),
}

/// An inbound text frame, read as a call.
#[derive(Clone, Debug)]
pub enum InboundCall {
    /// The text is not a method call.
    Unparsable,
    Call { method: String, params: SubscribeParams },
}

/// The answer sent back for a subscription call.
#[derive(Clone, Debug)]
pub enum SubscribeReply {
    /// The filter is active; acknowledged with "subscribed".
    Subscribed,
    InvalidParams(String),
    Refused(FilterError),
}

/// Handles one inbound call. `SlotsSubscribe` with valid parameters sets
/// (or replaces) the active filter; invalid parameters are answered and the
/// filter kept; a text that is not a call, or another method, closes the
/// connection.
pub fn on_call(active: &mut Option<SlotSubscribeFilter>, call: InboundCall) -> (r: Result<SubscribeReply, CloseReason>)
    ensures
        match call {
            InboundCall::Unparsable => r matches Err(CloseReason::InvalidMessage) && *final(active) == *old(active),
            InboundCall::Call { method, params } => if method@ != "SlotsSubscribe"@ {
                r matches Err(CloseReason::UnknownMethod) && *final(active) == *old(active)
            } else {
                match params {
                    SubscribeParams::Invalid(m) => r matches Ok(SubscribeReply::InvalidParams(m2)) && m2@ == m@
                        && *final(active) == *old(active),
                    SubscribeParams::Parsed(config) => if filter_outcome_ok(config) {
                        &&& r matches Ok(SubscribeReply::Subscribed)
                        &&& *final(active) matches Some(f)
                        &&& Some(key_views(f.read_write@)) == decode_all(config.read_write@)
                        &&& Some(key_views(f.read_only@)) == decode_all(config.read_only@)
                        &&& f.levels@ == config.levels@
                    } else {
                        r matches Ok(SubscribeReply::Refused(_)) && *final(active) == *old(active)
                    },
                }
            },
        },
{
    match call {
        InboundCall::Unparsable => Err(CloseReason::InvalidMessage),
        InboundCall::Call { method, params } => {
            let name = "SlotsSubscribe".to_owned();
            if !(method == name) {
                return Err(CloseReason::UnknownMethod);
            }
            match params {
                SubscribeParams::Invalid(m) => Ok(SubscribeReply::InvalidParams(m)),
                SubscribeParams::Parsed(config) => match SlotSubscribeFilter::try_from(config) {
                    Ok(f) => {
                        *active = Some(f);
                        Ok(SubscribeReply::Subscribed)
                    },
                    Err(e) => Ok(SubscribeReply::Refused(e)),
                },
            }
        },
    }
}

} // verus!

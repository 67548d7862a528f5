//! Answering requests over the wire protocol.

use crate::p2p::{Frame, Message, P2PError, FRAME_PAYLOAD_BYTES};
use crate::protocol::{ErrorText, PirEngine};
use crate::text::{around_number, decimal, join};
use vstd::prelude::*;
#[allow(unused_imports)]
use crate::p2p::{
    acceptable, framed, law_numbers, message_number, numbered, pending_bytes, response_to, FrameView,
};
#[allow(unused_imports)]
use crate::text::decimal_text;

verus! {

/// Why a peer's frame was not answered.
#[derive(Debug)]
pub enum Reject {
    /// The peer broke the protocol: its connection is closed.
    Protocol(String),
    /// The answer cannot be sent: the stream ends.
    Local(String),
}

/// Which request a frame carries. A request is one frame, so its flags are zero.
pub fn accept_request(message_type: u16, flags: u16) -> (r: Result<Message, Reject>)
    ensures
        flags != 0 ==> (r matches Err(Reject::Protocol(reason)) && reason@
            == "request flags must be zero, received "@ + decimal_text(flags as nat)),
        flags == 0 && message_type > 16 ==> (r matches Err(Reject::Protocol(reason)) && reason@
            == P2PError::InvalidMessageType(message_type).text()),
        flags == 0 && message_type <= 16 && response_to(numbered(message_type)) is None ==> (
        r matches Err(Reject::Protocol(reason)) && reason@
            == "expected a request message, received "@ + decimal_text(message_type as nat)),
        flags == 0 && message_type <= 16 && response_to(numbered(message_type)) is Some ==> r
            == Ok::<_, Reject>(numbered(message_type)),
{
    if flags != 0 {
        return Err(
            Reject::Protocol(
                join("request flags must be zero, received ", decimal(flags as u64).as_str()),
            ),
        );
    }
    let message = match Message::try_from(message_type) {
        Ok(message) => message,
        Err(error) => return Err(Reject::Protocol(error.message())),
    };
    if message.response().is_none() {
        return Err(
            Reject::Protocol(
                join(
                    "expected a request message, received ",
                    decimal(message_type as u64).as_str(),
                ),
            ),
        );
    }
    Ok(message)
}

/// What a request is answered with.
#[derive(Debug, Clone, Copy, PartialEq, Eq, Structural)]
pub enum Handling {
    /// An error: nothing can be served.
    Unavailable,
    /// The metadata of the live witness database.
    WitnessMetadata,
    /// The broadcast data of the live witness database.
    WitnessBroadcast,
    /// The geometry of the witness database.
    WitnessParams,
    /// The engine's answer over the live witness database.
    WitnessQuery,
}

/// What a request is answered with, given whether the witness database is live.
/// Only its geometry is known before.
pub open spec fn handled(request: Message, live: bool) -> Handling {
    match request {
        Message::WitnessParamsReq => Handling::WitnessParams,
        Message::WitnessMetadataReq if live => Handling::WitnessMetadata,
        Message::WitnessBroadcastReq if live => Handling::WitnessBroadcast,
        Message::WitnessQueryReq if live => Handling::WitnessQuery,
        _ => Handling::Unavailable,
    }
}

/// What a request is answered with.
pub fn route(request: Message, live: bool) -> (handling: Handling)
    ensures
        handling == handled(request, live),
{
    match request {
        Message::WitnessParamsReq => Handling::WitnessParams,
        Message::WitnessMetadataReq if live => Handling::WitnessMetadata,
        Message::WitnessBroadcastReq if live => Handling::WitnessBroadcast,
        Message::WitnessQueryReq if live => Handling::WitnessQuery,
        _ => Handling::Unavailable,
    }
}

/// Whether a query came to `r`, given what answering it came to.
pub open spec fn answered_as<P: PirEngine>(
    outcome: Result<Vec<u8>, P::Error>,
    r: Result<Vec<u8>, P2PError>,
) -> bool {
    match outcome {
        Ok(bytes) => r == Ok::<_, P2PError>(bytes),
        Err(error) => r matches Err(P2PError::QueryError(reason)) && call_ensures(
            P::Error::message,
            (&error,),
            reason,
        ),
    }
}

/// The engine's answer to a query over a live database, if there is one.
pub fn answer_query<P: PirEngine>(
    engine: &P,
    live: Option<&P::ServerState>,
    query: &[u8],
) -> (r: Result<Vec<u8>, P2PError>)
    ensures
        match live {
            None => r == Err::<Vec<u8>, _>(P2PError::ServiceUnavailable),
            Some(state) => exists|outcome: Result<Vec<u8>, P::Error>| #[trigger]
                call_ensures(P::answer_query, (engine, state, query), outcome) && answered_as::<P>(
                    outcome,
                    r,
                ),
        },
{
    let state = match live {
        Some(state) => state,
        None => return Err(P2PError::ServiceUnavailable),
    };
    match engine.answer_query(state, query) {
        Ok(bytes) => Ok(bytes),
        Err(error) => Err(P2PError::QueryError(error.message())),
    }
}

/// The frame that carries a payload in one piece.
pub fn single_frame(message: Message, payload: Vec<u8>) -> (frame: Frame)
    ensures
        frame.message_type == message_number(message),
        frame.flags == 0,
        frame.payload == payload,
{
    Frame { message_type: message.number(), flags: 0, payload }
}

/// The text for an answer of `n` bytes that is too long.
pub open spec fn too_long_text(n: nat) -> Seq<char> {
    "response payload is "@ + decimal_text(n)
        + " bytes, exceeding negotiated cap of 1048568 bytes"@
}

/// The frame that answers a request.
pub open spec fn answer_frame(request: Message, failed: bool, payload: Seq<u8>) -> FrameView {
    FrameView {
        message_type: if failed {
            message_number(Message::ErrRes)
        } else {
            message_number(response_to(request)->0)
        },
        flags: 0,
        payload,
    }
}

/// The frame that answers a request: its response type with `payload`, or, where
/// answering failed, an error message with the error as `payload`. A payload
/// that does not fit a frame is not sent.
pub fn answer(request: Message, failed: bool, payload: Vec<u8>) -> (r: Result<Frame, Reject>)
    requires
        response_to(request) is Some,
    ensures
        r is Ok <==> payload@.len() <= FRAME_PAYLOAD_BYTES,
        r matches Ok(frame) ==> frame@ == answer_frame(request, failed, payload@),
        r matches Err(reject) ==> (reject matches Reject::Local(reason) && reason@ == too_long_text(
            payload@.len(),
        )),
{
    let message = match request.response() {
        Some(response) if !failed => response,
        _ => Message::ErrRes,
    };
    if payload.len() > FRAME_PAYLOAD_BYTES {
        return Err(
            Reject::Local(
                around_number(
                    "response payload is ",
                    payload.len() as u64,
                    " bytes, exceeding negotiated cap of 1048568 bytes",
                ),
            ),
        );
    }
    Ok(single_frame(message, payload))
}

/// A wallet that awaits the answer to a request takes the answering frame for
/// the whole answer, or, where answering failed, for the error.
pub proof fn law_answer_is_understood(request: Message, failed: bool, payload: Seq<u8>)
    requires
        response_to(request) is Some,
        payload.len() <= FRAME_PAYLOAD_BYTES,
    ensures
        ({
            let frame = answer_frame(request, failed, payload);
            &&& acceptable(None, frame.message_type, frame.flags, frame.payload)
            &&& frame.flags == 0
            &&& numbered(frame.message_type) == (if failed {
                Message::ErrRes
            } else {
                response_to(request)->0
            })
            &&& pending_bytes(None) + frame.payload == payload
        }),
{
    law_numbers(Message::ErrRes, 0);
    law_numbers(response_to(request)->0, 0);
}

/// A request that fits a frame is sent as one frame that carries it whole, and
/// the server knows it for what it is.
pub proof fn law_short_request_is_understood(request: Message, payload: Seq<u8>)
    requires
        response_to(request) is Some,
        payload.len() <= FRAME_PAYLOAD_BYTES,
    ensures
        framed(request, payload).len() == 1,
        framed(request, payload)[0].flags == 0,
        framed(request, payload)[0].payload == payload,
        framed(request, payload)[0].message_type <= 16,
        numbered(framed(request, payload)[0].message_type) == request,
{
    law_numbers(request, 0);
}

/// Of the witness database its geometry is always told, and its metadata, its
/// broadcast and answers to queries exactly while it is live. Nothing else is.
pub proof fn law_only_the_live_database_answers(request: Message, live: bool)
    ensures
        handled(request, live) == Handling::WitnessParams <==> request
            == Message::WitnessParamsReq,
        handled(request, live) == Handling::WitnessMetadata <==> live && request
            == Message::WitnessMetadataReq,
        handled(request, live) == Handling::WitnessBroadcast <==> live && request
            == Message::WitnessBroadcastReq,
        handled(request, live) == Handling::WitnessQuery <==> live && request
            == Message::WitnessQueryReq,
{
}

/// A query gets the engine's own answer, and where there is none the engine's
/// error.
pub proof fn law_answer_is_the_engines<P: PirEngine>(
    outcome: Result<Vec<u8>, P::Error>,
    r: Result<Vec<u8>, P2PError>,
)
    requires
        answered_as::<P>(outcome, r),
    ensures
        r is Ok <==> outcome is Ok,
        outcome matches Ok(bytes) ==> r->Ok_0 == bytes,
        outcome is Err ==> r->Err_0 is QueryError && call_ensures(
            P::Error::message,
            (&outcome->Err_0,),
            r->Err_0->QueryError_0,
        ),
{
}

} // verus!

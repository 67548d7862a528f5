//! The wire protocol between wallet and server: messages, frames, reassembly.

use crate::protocol::ServerPhase;
use crate::text::{decimal, join};
use vstd::prelude::*;
#[allow(unused_imports)]
use crate::text::decimal_text;

verus! {

pub const PIR_SERVICE_ID: &'static str = "zakura.spendability-pir.v1";

pub const PIR_CAPABILITY: u64 = 65_536;

/// Request/response stream carrying all spendability PIR operations.
pub const PIR_STREAM_KIND: u16 = 64;

pub const PIR_STREAM_VERSION: u16 = 1;

/// Set on every frame of a message but the last.
pub const FRAME_FLAG_MORE: u16 = 1;

/// The most bytes a reassembled message may have.
pub const MAX_MESSAGE_BYTES: usize = 8_388_608;

/// The most payload bytes a frame may carry: a one-mebibyte frame less its header.
pub const FRAME_PAYLOAD_BYTES: usize = 1_048_568;

/// What can go wrong between peers.
#[derive(Debug)]
pub enum P2PError {
    InvalidMessageType(u16),
    InvalidFlags(u16),
    MessageTypeChanged,
    MessageTooLarge,
    ServiceUnavailable,
    SerdeError(String),
    QueryError(String),
}

impl P2PError {
    /// The text shown to a person.
    pub open spec fn text(&self) -> Seq<char> {
        match self {
            P2PError::InvalidMessageType(value) => "invalid message type: "@ + decimal_text(
                *value as nat,
            ),
            P2PError::InvalidFlags(value) => "invalid frame flags: "@ + decimal_text(*value as nat),
            P2PError::MessageTypeChanged => "message type changed before the final frame"@,
            P2PError::MessageTooLarge => "message exceeds 8388608 bytes"@,
            P2PError::ServiceUnavailable => "service currently unavailable"@,
            P2PError::SerdeError(reason) => "serde error: "@ + reason@,
            P2PError::QueryError(reason) => "PIR query failed: "@ + reason@,
        }
    }

    /// The text shown to a person.
    pub fn message(&self) -> (s: String)
        ensures
            s@ == self.text(),
    {
        match self {
            P2PError::InvalidMessageType(value) => join(
                "invalid message type: ",
                decimal(*value as u64).as_str(),
            ),
            P2PError::InvalidFlags(value) => join(
                "invalid frame flags: ",
                decimal(*value as u64).as_str(),
            ),
            P2PError::MessageTypeChanged => "message type changed before the final frame".to_owned(),
            P2PError::MessageTooLarge => "message exceeds 8388608 bytes".to_owned(),
            P2PError::ServiceUnavailable => "service currently unavailable".to_owned(),
            P2PError::SerdeError(reason) => join("serde error: ", reason.as_str()),
            P2PError::QueryError(reason) => join("PIR query failed: ", reason.as_str()),
        }
    }
}

/// The health of both subsystems.
#[derive(Debug, PartialEq, Eq)]
pub struct CombinedHealthResponse {
    pub nullifier: SubsystemHealth,
    pub witness: SubsystemHealth,
}

/// The health of one subsystem.
#[derive(Debug, PartialEq, Eq)]
pub struct SubsystemHealth {
    pub phase: String,
    pub current_height: Option<u64>,
    pub target_height: Option<u64>,
}

impl SubsystemHealth {
    /// What a phase looks like from outside: heights are told while syncing.
    pub fn of(phase: &ServerPhase) -> (health: Self)
        ensures
            match *phase {
                ServerPhase::Serving => health.phase@ == "serving"@ && health.current_height is None
                    && health.target_height is None,
                ServerPhase::Syncing { current_height, target_height } => health.phase@
                    == "syncing"@ && health.current_height == Some(current_height)
                    && health.target_height == Some(target_height),
            },
    {
        match phase {
            ServerPhase::Serving => SubsystemHealth {
                phase: "serving".to_owned(),
                current_height: None,
                target_height: None,
            },
            ServerPhase::Syncing { current_height, target_height } => SubsystemHealth {
                phase: "syncing".to_owned(),
                current_height: Some(*current_height),
                target_height: Some(*target_height),
            },
        }
    }
}

impl<'a> From<&'a ServerPhase> for SubsystemHealth {
    fn from(phase: &'a ServerPhase) -> (health: Self)
        ensures
            match *phase {
                ServerPhase::Serving => health.phase@ == "serving"@ && health.current_height is None
                    && health.target_height is None,
                ServerPhase::Syncing { current_height, target_height } => health.phase@
                    == "syncing"@ && health.current_height == Some(current_height)
                    && health.target_height == Some(target_height),
            },
    {
        SubsystemHealth::of(phase)
    }
}

impl<'a> vstd::std_specs::convert::FromSpecImpl<&'a ServerPhase> for SubsystemHealth {
    open spec fn obeys_from_spec() -> bool {
        false
    }

    open spec fn from_spec(phase: &'a ServerPhase) -> SubsystemHealth {
        vstd::pervasive::arbitrary()
    }
}

/// Spendability PIR wire message types, in the order of their numbers.
#[derive(Clone, Copy, Debug, PartialEq, Eq, Structural)]
pub enum Message {
    HealthReq,
    NullifierMetadataReq,
    NullifierParamsReq,
    NullifierQueryReq,
    WitnessMetadataReq,
    WitnessBroadcastReq,
    WitnessParamsReq,
    WitnessQueryReq,
    HealthRes,
    NullifierMetadataRes,
    NullifierParamsRes,
    NullifierQueryRes,
    WitnessMetadataRes,
    WitnessBroadcastRes,
    WitnessParamsRes,
    WitnessQueryRes,
    ErrRes,
}

/// The number of a message type on the wire.
pub open spec fn message_number(message: Message) -> u16 {
    match message {
        Message::HealthReq => 0,
        Message::NullifierMetadataReq => 1,
        Message::NullifierParamsReq => 2,
        Message::NullifierQueryReq => 3,
        Message::WitnessMetadataReq => 4,
        Message::WitnessBroadcastReq => 5,
        Message::WitnessParamsReq => 6,
        Message::WitnessQueryReq => 7,
        Message::HealthRes => 8,
        Message::NullifierMetadataRes => 9,
        Message::NullifierParamsRes => 10,
        Message::NullifierQueryRes => 11,
        Message::WitnessMetadataRes => 12,
        Message::WitnessBroadcastRes => 13,
        Message::WitnessParamsRes => 14,
        Message::WitnessQueryRes => 15,
        Message::ErrRes => 16,
    }
}

/// The message type with a number.
pub open spec fn numbered(value: u16) -> Message {
    if value == 0 {
        Message::HealthReq
    } else if value == 1 {
        Message::NullifierMetadataReq
    } else if value == 2 {
        Message::NullifierParamsReq
    } else if value == 3 {
        Message::NullifierQueryReq
    } else if value == 4 {
        Message::WitnessMetadataReq
    } else if value == 5 {
        Message::WitnessBroadcastReq
    } else if value == 6 {
        Message::WitnessParamsReq
    } else if value == 7 {
        Message::WitnessQueryReq
    } else if value == 8 {
        Message::HealthRes
    } else if value == 9 {
        Message::NullifierMetadataRes
    } else if value == 10 {
        Message::NullifierParamsRes
    } else if value == 11 {
        Message::NullifierQueryRes
    } else if value == 12 {
        Message::WitnessMetadataRes
    } else if value == 13 {
        Message::WitnessBroadcastRes
    } else if value == 14 {
        Message::WitnessParamsRes
    } else if value == 15 {
        Message::WitnessQueryRes
    } else {
        Message::ErrRes
    }
}

/// Message types and the numbers 0 to 16 correspond one to one.
pub proof fn law_numbers(message: Message, value: u16)
    ensures
        message_number(message) <= 16,
        numbered(message_number(message)) == message,
        value <= 16 ==> message_number(numbered(value)) == value,
{
}

/// The response type that answers a request type.
pub open spec fn response_to(message: Message) -> Option<Message> {
    match message {
        Message::HealthReq => Some(Message::HealthRes),
        Message::NullifierMetadataReq => Some(Message::NullifierMetadataRes),
        Message::NullifierParamsReq => Some(Message::NullifierParamsRes),
        Message::NullifierQueryReq => Some(Message::NullifierQueryRes),
        Message::WitnessMetadataReq => Some(Message::WitnessMetadataRes),
        Message::WitnessBroadcastReq => Some(Message::WitnessBroadcastRes),
        Message::WitnessParamsReq => Some(Message::WitnessParamsRes),
        Message::WitnessQueryReq => Some(Message::WitnessQueryRes),
        _ => None,
    }
}

/// A request is answered by the type eight above it, and nothing else is answered.
pub proof fn law_responses(message: Message)
    ensures
        response_to(message) is Some <==> message_number(message) < 8,
        response_to(message) is Some ==> message_number(response_to(message)->0) == message_number(
            message,
        ) + 8,
        response_to(message) is Some ==> response_to(response_to(message)->0) is None,
{
}

impl Message {
    /// The response type that answers this request type.
    pub fn response(self) -> (r: Option<Self>)
        ensures
            r == response_to(self),
    {
        match self {
            Message::HealthReq => Some(Message::HealthRes),
            Message::NullifierMetadataReq => Some(Message::NullifierMetadataRes),
            Message::NullifierParamsReq => Some(Message::NullifierParamsRes),
            Message::NullifierQueryReq => Some(Message::NullifierQueryRes),
            Message::WitnessMetadataReq => Some(Message::WitnessMetadataRes),
            Message::WitnessBroadcastReq => Some(Message::WitnessBroadcastRes),
            Message::WitnessParamsReq => Some(Message::WitnessParamsRes),
            Message::WitnessQueryReq => Some(Message::WitnessQueryRes),
            _ => None,
        }
    }

    /// The number on the wire.
    pub fn number(self) -> (n: u16)
        ensures
            n == message_number(self),
    {
        match self {
            Message::HealthReq => 0,
            Message::NullifierMetadataReq => 1,
            Message::NullifierParamsReq => 2,
            Message::NullifierQueryReq => 3,
            Message::WitnessMetadataReq => 4,
            Message::WitnessBroadcastReq => 5,
            Message::WitnessParamsReq => 6,
            Message::WitnessQueryReq => 7,
            Message::HealthRes => 8,
            Message::NullifierMetadataRes => 9,
            Message::NullifierParamsRes => 10,
            Message::NullifierQueryRes => 11,
            Message::WitnessMetadataRes => 12,
            Message::WitnessBroadcastRes => 13,
            Message::WitnessParamsRes => 14,
            Message::WitnessQueryRes => 15,
            Message::ErrRes => 16,
        }
    }

    /// The name of the message type.
    pub open spec fn name_text(self) -> Seq<char> {
        match self {
            Message::HealthReq => "HealthReq"@,
            Message::NullifierMetadataReq => "NullifierMetadataReq"@,
            Message::NullifierParamsReq => "NullifierParamsReq"@,
            Message::NullifierQueryReq => "NullifierQueryReq"@,
            Message::WitnessMetadataReq => "WitnessMetadataReq"@,
            Message::WitnessBroadcastReq => "WitnessBroadcastReq"@,
            Message::WitnessParamsReq => "WitnessParamsReq"@,
            Message::WitnessQueryReq => "WitnessQueryReq"@,
            Message::HealthRes => "HealthRes"@,
            Message::NullifierMetadataRes => "NullifierMetadataRes"@,
            Message::NullifierParamsRes => "NullifierParamsRes"@,
            Message::NullifierQueryRes => "NullifierQueryRes"@,
            Message::WitnessMetadataRes => "WitnessMetadataRes"@,
            Message::WitnessBroadcastRes => "WitnessBroadcastRes"@,
            Message::WitnessParamsRes => "WitnessParamsRes"@,
            Message::WitnessQueryRes => "WitnessQueryRes"@,
            Message::ErrRes => "ErrRes"@,
        }
    }

    /// The name of the message type.
    pub fn name(self) -> (s: &'static str)
        ensures
            s@ == self.name_text(),
    {
        match self {
            Message::HealthReq => "HealthReq",
            Message::NullifierMetadataReq => "NullifierMetadataReq",
            Message::NullifierParamsReq => "NullifierParamsReq",
            Message::NullifierQueryReq => "NullifierQueryReq",
            Message::WitnessMetadataReq => "WitnessMetadataReq",
            Message::WitnessBroadcastReq => "WitnessBroadcastReq",
            Message::WitnessParamsReq => "WitnessParamsReq",
            Message::WitnessQueryReq => "WitnessQueryReq",
            Message::HealthRes => "HealthRes",
            Message::NullifierMetadataRes => "NullifierMetadataRes",
            Message::NullifierParamsRes => "NullifierParamsRes",
            Message::NullifierQueryRes => "NullifierQueryRes",
            Message::WitnessMetadataRes => "WitnessMetadataRes",
            Message::WitnessBroadcastRes => "WitnessBroadcastRes",
            Message::WitnessParamsRes => "WitnessParamsRes",
            Message::WitnessQueryRes => "WitnessQueryRes",
            Message::ErrRes => "ErrRes",
        }
    }
}

impl From<Message> for u16 {
    fn from(message: Message) -> (n: u16) {
        message.number()
    }
}

impl vstd::std_specs::convert::FromSpecImpl<Message> for u16 {
    open spec fn obeys_from_spec() -> bool {
        true
    }

    open spec fn from_spec(message: Message) -> u16 {
        message_number(message)
    }
}

impl TryFrom<u16> for Message {
    type Error = P2PError;

    fn try_from(value: u16) -> (r: Result<Self, P2PError>) {
        match value {
            0 => Ok(Message::HealthReq),
            1 => Ok(Message::NullifierMetadataReq),
            2 => Ok(Message::NullifierParamsReq),
            3 => Ok(Message::NullifierQueryReq),
            4 => Ok(Message::WitnessMetadataReq),
            5 => Ok(Message::WitnessBroadcastReq),
            6 => Ok(Message::WitnessParamsReq),
            7 => Ok(Message::WitnessQueryReq),
            8 => Ok(Message::HealthRes),
            9 => Ok(Message::NullifierMetadataRes),
            10 => Ok(Message::NullifierParamsRes),
            11 => Ok(Message::NullifierQueryRes),
            12 => Ok(Message::WitnessMetadataRes),
            13 => Ok(Message::WitnessBroadcastRes),
            14 => Ok(Message::WitnessParamsRes),
            15 => Ok(Message::WitnessQueryRes),
            16 => Ok(Message::ErrRes),
            _ => Err(P2PError::InvalidMessageType(value)),
        }
    }
}

impl vstd::std_specs::convert::TryFromSpecImpl<u16> for Message {
    open spec fn obeys_try_from_spec() -> bool {
        true
    }

    open spec fn try_from_spec(value: u16) -> Result<Message, P2PError> {
        if value <= 16 {
            Ok(numbered(value))
        } else {
            Err(P2PError::InvalidMessageType(value))
        }
    }
}

/// A message under reassembly: its type and the bytes so far.
pub type Pending = Option<(Message, Seq<u8>)>;

/// The bytes so far.
pub open spec fn pending_bytes(pending: Pending) -> Seq<u8> {
    match pending {
        Some((_, bytes)) => bytes,
        None => Seq::empty(),
    }
}

/// Whether a frame continues or begins a message.
pub open spec fn acceptable(pending: Pending, message_type: u16, flags: u16, payload: Seq<u8>) -> bool {
    &&& flags <= FRAME_FLAG_MORE
    &&& message_type <= 16
    &&& (pending matches Some((current, _)) ==> current == numbered(message_type))
    &&& pending_bytes(pending).len() + payload.len() <= MAX_MESSAGE_BYTES
}

/// Why a frame is not acceptable: its flags first, then its message type, the
/// message it would continue, and the length.
pub open spec fn refusal(pending: Pending, message_type: u16, flags: u16) -> P2PError {
    if flags > FRAME_FLAG_MORE {
        P2PError::InvalidFlags(flags)
    } else if message_type > 16 {
        P2PError::InvalidMessageType(message_type)
    } else if pending matches Some((current, _)) && current != numbered(message_type) {
        P2PError::MessageTypeChanged
    } else {
        P2PError::MessageTooLarge
    }
}

/// Reassembles messages from frames.
pub struct MessageDecoder(Option<(Message, Vec<u8>)>);

impl View for MessageDecoder {
    type V = Pending;

    closed spec fn view(&self) -> Pending {
        match self.0 {
            Some((message, bytes)) => Some((message, bytes@)),
            None => None,
        }
    }
}

impl Default for MessageDecoder {
    fn default() -> (decoder: Self)
        ensures
            decoder@ is None,
            decoder.wf(),
    {
        MessageDecoder(None)
    }
}

impl MessageDecoder {
    /// The bytes so far stay within the limit.
    pub closed spec fn wf(&self) -> bool {
        pending_bytes(self@).len() <= MAX_MESSAGE_BYTES
    }

    /// Takes a frame in. A message comes out with its last frame; a frame that
    /// is refused changes nothing.
    pub fn push(&mut self, message_type: u16, flags: u16, payload: Vec<u8>) -> (r: Result<
        Option<(Message, Vec<u8>)>,
        P2PError,
    >)
        requires
            old(self).wf(),
        ensures
            final(self).wf(),
            r is Ok <==> acceptable(old(self)@, message_type, flags, payload@),
            r matches Err(error) ==> final(self)@ == old(self)@ && error == refusal(
                old(self)@,
                message_type,
                flags,
            ),
            r matches Ok(out) ==> {
                let whole = pending_bytes(old(self)@) + payload@;
                if flags == FRAME_FLAG_MORE {
                    out is None && final(self)@ == Some((numbered(message_type), whole))
                } else {
                    &&& out matches Some((message, combined))
                    &&& message == numbered(message_type)
                    &&& combined@ == whole
                    &&& final(self)@ is None
                }
            },
    {
        if flags > FRAME_FLAG_MORE {
            return Err(P2PError::InvalidFlags(flags));
        }
        let message_type = match Message::try_from(message_type) {
            Ok(message) => message,
            Err(error) => return Err(error),
        };
        let more: bool = flags == FRAME_FLAG_MORE;
        let (changed, current_len): (bool, usize) = match &self.0 {
            Some((current, bytes)) => (*current != message_type, bytes.len()),
            None => (false, 0),
        };
        if changed {
            return Err(P2PError::MessageTypeChanged);
        }
        if payload.len() > MAX_MESSAGE_BYTES - current_len {
            return Err(P2PError::MessageTooLarge);
        }
        let mut combined: Vec<u8> = match self.0.take() {
            Some((_, bytes)) => bytes,
            None => Vec::new(),
        };
        let mut payload = payload;
        combined.append(&mut payload);
        if more {
            self.0 = Some((message_type, combined));
            Ok(None)
        } else {
            Ok(Some((message_type, combined)))
        }
    }
}

/// One frame of a message.
#[derive(Debug, Clone, PartialEq, Eq)]
pub struct Frame {
    pub message_type: u16,
    pub flags: u16,
    pub payload: Vec<u8>,
}

/// A frame as mathematics sees it.
#[verifier::ext_equal]
pub struct FrameView {
    pub message_type: u16,
    pub flags: u16,
    pub payload: Seq<u8>,
}

impl View for Frame {
    type V = FrameView;

    open spec fn view(&self) -> FrameView {
        FrameView { message_type: self.message_type, flags: self.flags, payload: self.payload@ }
    }
}

/// The frames of a message: full ones while more bytes follow, then the rest.
pub open spec fn framed(message: Message, payload: Seq<u8>) -> Seq<FrameView>
    decreases payload.len(),
{
    if payload.len() <= 1_048_568 {
        seq![FrameView { message_type: message_number(message), flags: 0, payload }]
    } else {
        seq![
            FrameView {
                message_type: message_number(message),
                flags: FRAME_FLAG_MORE,
                payload: payload.take(1_048_568),
            },
        ] + framed(message, payload.skip(1_048_568))
    }
}

/// Splits a message into frames.
pub fn frames(message: Message, payload: Vec<u8>) -> (r: Vec<Frame>)
    ensures
        r@.map_values(|f: Frame| f@) == framed(message, payload@),
{
    let mut out: Vec<Frame> = Vec::new();
    let size: usize = payload.len();
    let mut at: usize = 0;
    assert(out@.map_values(|f: Frame| f@) =~= Seq::<FrameView>::empty());
    assert(payload@.skip(0) =~= payload@);
    assert(Seq::<FrameView>::empty() + framed(message, payload@) =~= framed(message, payload@));
    while size - at > FRAME_PAYLOAD_BYTES
        invariant
            at <= size == payload@.len(),
            framed(message, payload@) == out@.map_values(|f: Frame| f@) + framed(
                message,
                payload@.skip(at as int),
            ),
        decreases size - at,
    {
        let ghost before = out@.map_values(|f: Frame| f@);
        let ghost rest = payload@.skip(at as int);
        let part = vstd::slice::slice_subrange(payload.as_slice(), at, at + FRAME_PAYLOAD_BYTES);
        let frame = Frame {
            message_type: message.number(),
            flags: FRAME_FLAG_MORE,
            payload: vstd::slice::slice_to_vec(part),
        };
        proof {
            assert(frame.payload@ =~= rest.take(1_048_568));
            assert(rest.skip(1_048_568) =~= payload@.skip(at + 1_048_568));
        }
        let ghost view = frame@;
        out.push(frame);
        at += FRAME_PAYLOAD_BYTES;
        proof {
            assert(out@.map_values(|f: Frame| f@) =~= before.push(view));
            assert(before.push(view) + framed(message, payload@.skip(at as int)) =~= before
                + framed(message, rest));
        }
    }
    let ghost before = out@.map_values(|f: Frame| f@);
    let ghost rest = payload@.skip(at as int);
    let part = vstd::slice::slice_subrange(payload.as_slice(), at, size);
    let last = Frame {
        message_type: message.number(),
        flags: 0,
        payload: vstd::slice::slice_to_vec(part),
    };
    assert(last.payload@ =~= rest);
    let ghost view = last@;
    out.push(last);
    assert(out@.map_values(|f: Frame| f@) =~= before + seq![view]);
    out
}

/// What a decoder has given out and still holds after some frames.
#[verifier::ext_equal]
pub struct Stream {
    pub pending: Pending,
    pub messages: Seq<(Message, Seq<u8>)>,
}

/// What a decoder does with one frame, as `MessageDecoder::push` says.
pub open spec fn fed_one(s: Stream, frame: FrameView) -> Option<Stream> {
    if acceptable(s.pending, frame.message_type, frame.flags, frame.payload) {
        let whole = (numbered(frame.message_type), pending_bytes(s.pending) + frame.payload);
        if frame.flags == FRAME_FLAG_MORE {
            Some(Stream { pending: Some(whole), messages: s.messages })
        } else {
            Some(Stream { pending: None, messages: s.messages.push(whole) })
        }
    } else {
        None
    }
}

/// What a decoder does with frames, one after the other; `None` once one is refused.
pub open spec fn fed(s: Stream, frames: Seq<FrameView>) -> Option<Stream>
    decreases frames.len(),
{
    if frames.len() == 0 {
        Some(s)
    } else {
        match fed_one(s, frames[0]) {
            Some(next) => fed(next, frames.drop_first()),
            None => None,
        }
    }
}

proof fn lemma_fed_append(s: Stream, a: Seq<FrameView>, b: Seq<FrameView>)
    ensures
        fed(s, a + b) == (match fed(s, a) {
            Some(next) => fed(next, b),
            None => None,
        }),
    decreases a.len(),
{
    if a.len() == 0 {
        assert(a + b =~= b);
    } else {
        assert((a + b)[0] == a[0]);
        assert((a + b).drop_first() =~= a.drop_first() + b);
        if let Some(next) = fed_one(s, a[0]) {
            lemma_fed_append(next, a.drop_first(), b);
        }
    }
}

proof fn lemma_frames_from(
    message: Message,
    whole: Seq<u8>,
    at: int,
    messages: Seq<(Message, Seq<u8>)>,
)
    requires
        0 <= at <= whole.len() <= MAX_MESSAGE_BYTES,
    ensures
        fed(
            Stream {
                pending: if at == 0 {
                    None
                } else {
                    Some((message, whole.take(at)))
                },
                messages,
            },
            framed(message, whole.skip(at)),
        ) == Some(Stream { pending: None, messages: messages.push((message, whole)) }),
    decreases whole.len() - at,
{
    law_numbers(message, 0);
    let rest = whole.skip(at);
    let list = framed(message, rest);
    let s = Stream {
        pending: if at == 0 {
            None
        } else {
            Some((message, whole.take(at)))
        },
        messages,
    };
    assert(whole.take(0) =~= Seq::empty());
    assert(pending_bytes(s.pending) =~= whole.take(at));
    if rest.len() <= 1_048_568 {
        assert(list.drop_first() =~= Seq::empty());
        assert(whole.take(at) + rest =~= whole);
        let next = fed_one(s, list[0])->0;
        assert(fed(next, list.drop_first()) == Some(next));
    } else {
        let tail = framed(message, rest.skip(1_048_568));
        assert(list.drop_first() =~= tail);
        assert(rest.skip(1_048_568) =~= whole.skip(at + 1_048_568));
        assert(whole.take(at) + rest.take(1_048_568) =~= whole.take(at + 1_048_568));
        lemma_frames_from(message, whole, at + 1_048_568, messages);
    }
}

/// A message split into frames comes out of a decoder whole, with its last
/// frame, and leaves the decoder as it found it.
pub proof fn law_frames_reassemble(
    message: Message,
    payload: Seq<u8>,
    messages: Seq<(Message, Seq<u8>)>,
)
    requires
        payload.len() <= MAX_MESSAGE_BYTES,
    ensures
        fed(Stream { pending: None, messages }, framed(message, payload)) == Some(
            Stream { pending: None, messages: messages.push((message, payload)) },
        ),
{
    assert(payload.skip(0) =~= payload);
    lemma_frames_from(message, payload, 0, messages);
}

/// The frames of several messages, sent one after the other.
pub open spec fn all_framed(list: Seq<(Message, Seq<u8>)>) -> Seq<FrameView>
    decreases list.len(),
{
    if list.len() == 0 {
        Seq::empty()
    } else {
        all_framed(list.drop_last()) + framed(list.last().0, list.last().1)
    }
}

/// Messages sent one after the other come out in the same order.
pub proof fn law_stream_reassembles(list: Seq<(Message, Seq<u8>)>)
    requires
        forall|i: int| 0 <= i < list.len() ==> (#[trigger] list[i]).1.len() <= MAX_MESSAGE_BYTES,
    ensures
        fed(Stream { pending: None, messages: Seq::empty() }, all_framed(list)) == Some(
            Stream { pending: None, messages: list },
        ),
    decreases list.len(),
{
    let start = Stream { pending: None, messages: Seq::empty() };
    if list.len() == 0 {
        assert(list =~= Seq::empty());
    } else {
        let less = list.drop_last();
        assert forall|i: int| 0 <= i < less.len() implies (#[trigger] less[i]).1.len()
            <= MAX_MESSAGE_BYTES by {
            assert(less[i] == list[i]);
        }
        law_stream_reassembles(less);
        lemma_fed_append(start, all_framed(less), framed(list.last().0, list.last().1));
        assert(list[list.len() - 1] == list.last());
        law_frames_reassemble(list.last().0, list.last().1, less);
        assert(less.push(list.last()) =~= list);
    }
}

/// Every frame of a message fits the stream's frame limit.
pub proof fn law_frames_fit(message: Message, payload: Seq<u8>)
    ensures
        framed(message, payload).len() > 0,
        forall|i: int|
            0 <= i < framed(message, payload).len() ==> (#[trigger] framed(
                message,
                payload,
            )[i]).payload.len() <= FRAME_PAYLOAD_BYTES,
        forall|i: int|
            0 <= i < framed(message, payload).len() ==> (#[trigger] framed(
                message,
                payload,
            )[i]).message_type == message_number(message),
    decreases payload.len(),
{
    if payload.len() > 1_048_568 {
        let rest = payload.skip(1_048_568);
        law_frames_fit(message, rest);
        let list = framed(message, payload);
        assert forall|i: int| 0 < i < list.len() implies #[trigger] list[i] == framed(
            message,
            rest,
        )[i - 1] by {}
    }
}

/// A frame is taken exactly when its flags are 0 or 1, its type has a number from
/// 0 to 16, it goes on with the message under reassembly if there is one, and the
/// message stays within eight mebibytes.
pub proof fn law_frame_is_taken(pending: Pending, message_type: u16, flags: u16, payload: Seq<u8>)
    ensures
        acceptable(pending, message_type, flags, payload) <==> {
            &&& flags == 0 || flags == 1
            &&& message_type < 17
            &&& pending is Some ==> message_number((pending->0).0) == message_type
            &&& payload.len() + (if pending is Some {
                (pending->0).1.len()
            } else {
                0
            }) <= 8 * 1024 * 1024
        },
        pending_bytes(pending) == (if pending is Some {
            (pending->0).1
        } else {
            Seq::empty()
        }),
{
    if pending is Some {
        law_numbers((pending->0).0, message_type);
    }
}

/// A refused frame is refused for what is wrong with it.
pub proof fn law_refusal_names_the_fault(
    pending: Pending,
    message_type: u16,
    flags: u16,
    payload: Seq<u8>,
)
    requires
        !acceptable(pending, message_type, flags, payload),
    ensures
        match refusal(pending, message_type, flags) {
            P2PError::InvalidFlags(value) => value == flags && flags > 1,
            P2PError::InvalidMessageType(value) => value == message_type && message_type > 16,
            P2PError::MessageTypeChanged => pending is Some && message_number((pending->0).0)
                != message_type,
            P2PError::MessageTooLarge => payload.len() + pending_bytes(pending).len() > 8 * 1024
                * 1024,
            _ => false,
        },
{
    if pending is Some {
        law_numbers((pending->0).0, message_type);
    }
}

/// The frames of a message carry its payload, piece after piece: each but the
/// last is full and says that more follows, and the last says that none does.
pub proof fn law_frames_carry_the_payload(message: Message, payload: Seq<u8>)
    ensures
        framed(message, payload).map_values(|frame: FrameView| frame.payload).flatten() == payload,
        forall|i: int|
            0 <= i < framed(message, payload).len() ==> (#[trigger] framed(
                message,
                payload,
            )[i]).flags == (if i + 1 < framed(message, payload).len() {
                1int
            } else {
                0int
            }),
        forall|i: int|
            0 <= i < framed(message, payload).len() - 1 ==> (#[trigger] framed(
                message,
                payload,
            )[i]).payload.len() == 1_048_568,
        framed(message, payload).len() > 0,
    decreases payload.len(),
{
    let all = framed(message, payload);
    let bytes = |frame: FrameView| frame.payload;
    let parts = all.map_values(bytes);
    if payload.len() <= 1_048_568 {
        assert(parts =~= seq![payload]);
        parts.lemma_flatten_one_element();
    } else {
        let rest = framed(message, payload.skip(1_048_568));
        law_frames_carry_the_payload(message, payload.skip(1_048_568));
        assert(all.drop_first() =~= rest);
        assert(parts.drop_first() =~= rest.map_values(bytes));
        assert(parts.first() == payload.take(1_048_568));
        assert(parts.flatten() == payload.take(1_048_568) + payload.skip(1_048_568));
        assert(payload.take(1_048_568) + payload.skip(1_048_568) =~= payload);
        assert forall|i: int| 0 <= i < all.len() implies (#[trigger] all[i]).flags == (if i + 1
            < all.len() {
            1int
        } else {
            0int
        }) by {
            if i > 0 {
                assert(all[i] == rest[i - 1]);
            }
        }
        assert forall|i: int| 0 <= i < all.len() - 1 implies (#[trigger] all[i]).payload.len()
            == 1_048_568 by {
            if i > 0 {
                assert(all[i] == rest[i - 1]);
            }
        }
    }
}

} // verus!

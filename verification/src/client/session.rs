//! Requests and responses over the wire protocol, and which connection they go to.

use super::error::P2pClientError;
use crate::p2p::{Message, MessageDecoder, P2PError, MAX_MESSAGE_BYTES};
use crate::protocol::ZcashNetwork;
use crate::text::join;
use vstd::prelude::*;
#[allow(unused_imports)]
use crate::p2p::{acceptable, numbered, pending_bytes, refusal, response_to, Pending};

verus! {

/// Checks that a message is a request and fits.
pub fn check_request(request: Message, payload_len: usize) -> (r: Result<(), P2pClientError>)
    ensures
        response_to(request) is None ==> r == Err::<(), _>(P2pClientError::InvalidRequest(request)),
        response_to(request) is Some && payload_len > MAX_MESSAGE_BYTES ==> (r matches Err(
            P2pClientError::Protocol(reason),
        ) && reason@ == P2PError::MessageTooLarge.text()),
        r is Ok <==> response_to(request) is Some && payload_len <= MAX_MESSAGE_BYTES,
{
    if request.response().is_none() {
        return Err(P2pClientError::InvalidRequest(request));
    }
    if payload_len > MAX_MESSAGE_BYTES {
        return Err(P2pClientError::Protocol(P2PError::MessageTooLarge.message()));
    }
    Ok(())
}

/// What a provider's complete message is to a request.
#[derive(Debug)]
pub enum Reply {
    /// The answer.
    Answer(Vec<u8>),
    /// The provider's error, still encoded.
    Failure(Vec<u8>),
}

/// Sorts a provider's message out: an error, the answer, or neither.
pub fn classify_reply(request: Message, response: Message, payload: Vec<u8>) -> (r: Result<
    Reply,
    P2pClientError,
>)
    ensures
        response == Message::ErrRes ==> r == Ok::<_, P2pClientError>(Reply::Failure(payload)),
        response != Message::ErrRes ==> match response_to(request) {
            None => r == Err::<Reply, _>(P2pClientError::InvalidRequest(request)),
            Some(expected) => if response == expected {
                r == Ok::<_, P2pClientError>(Reply::Answer(payload))
            } else {
                r matches Err(P2pClientError::Protocol(reason)) && reason@ == "expected "@
                    + expected.name_text() + ", received "@ + response.name_text()
            },
        },
{
    if response == Message::ErrRes {
        return Ok(Reply::Failure(payload));
    }
    let expected = match request.response() {
        Some(expected) => expected,
        None => return Err(P2pClientError::InvalidRequest(request)),
    };
    if response != expected {
        let mut reason = join("expected ", expected.name());
        reason.append(", received ");
        reason.append(response.name());
        return Err(P2pClientError::Protocol(reason));
    }
    Ok(Reply::Answer(payload))
}

/// An exchange under way: a request has been sent and frames come in.
pub struct Exchange {
    request: Message,
    decoder: MessageDecoder,
}

impl Exchange {
    pub closed spec fn wf(&self) -> bool {
        self.decoder.wf()
    }

    /// The request that was sent.
    pub closed spec fn request_view(&self) -> Message {
        self.request
    }

    /// The message under reassembly.
    pub closed spec fn pending(&self) -> Pending {
        self.decoder@
    }

    /// An exchange that awaits the answer to `request`.
    pub fn new(request: Message) -> (exchange: Self)
        ensures
            exchange.wf(),
            exchange.request_view() == request,
            exchange.pending() is None,
    {
        Exchange { request, decoder: MessageDecoder::default() }
    }

    /// Takes a frame in. With the last frame of a message the reply comes out;
    /// a frame that does not fit ends the exchange.
    pub fn on_frame(&mut self, message_type: u16, flags: u16, payload: Vec<u8>) -> (r: Result<
        Option<Reply>,
        P2pClientError,
    >)
        requires
            old(self).wf(),
        ensures
            final(self).wf(),
            final(self).request_view() == old(self).request_view(),
            !acceptable(old(self).pending(), message_type, flags, payload@) ==> {
                &&& r matches Err(P2pClientError::Protocol(reason))
                &&& reason@ == refusal(old(self).pending(), message_type, flags).text()
                &&& final(self).pending() == old(self).pending()
            },
            acceptable(old(self).pending(), message_type, flags, payload@) && flags == 1 ==> r
                == Ok::<_, P2pClientError>(None::<Reply>) && final(self).pending() == Some(
                (numbered(message_type), pending_bytes(old(self).pending()) + payload@),
            ),
            acceptable(old(self).pending(), message_type, flags, payload@) && flags == 0 ==> {
                let response = numbered(message_type);
                let whole = pending_bytes(old(self).pending()) + payload@;
                let request = old(self).request_view();
                &&& final(self).pending() is None
                &&& if response == Message::ErrRes {
                    r matches Ok(Some(Reply::Failure(bytes))) && bytes@ == whole
                } else if response_to(request) == Some(response) {
                    r matches Ok(Some(Reply::Answer(bytes))) && bytes@ == whole
                } else if response_to(request) is None {
                    r == Err::<Option<Reply>, _>(P2pClientError::InvalidRequest(request))
                } else {
                    r matches Err(P2pClientError::Protocol(reason)) && reason@ == "expected "@
                        + response_to(request)->0.name_text() + ", received "@
                        + response.name_text()
                }
            },
    {
        match self.decoder.push(message_type, flags, payload) {
            Ok(Some((response, whole))) => match classify_reply(self.request, response, whole) {
                Ok(reply) => Ok(Some(reply)),
                Err(error) => Err(error),
            },
            Ok(None) => Ok(None),
            Err(error) => Err(P2pClientError::Protocol(error.message())),
        }
    }
}

/// Whether a failure leaves the connection unusable.
pub fn is_fatal(error: &P2pClientError) -> (r: bool)
    ensures
        r == (*error is Disconnected || *error is Protocol || *error is Timeout),
{
    match error {
        P2pClientError::Disconnected => true,
        P2pClientError::Protocol(_) => true,
        P2pClientError::Timeout => true,
        _ => false,
    }
}

/// A connection to a peer.
pub struct Connection {
    pub peer: Vec<u8>,
    pub conn_id: u64,
}

/// A connection as mathematics sees it.
pub type ConnectionView = (Seq<u8>, u64);

impl View for Connection {
    type V = ConnectionView;

    open spec fn view(&self) -> ConnectionView {
        (self.peer@, self.conn_id)
    }
}

/// The connection that requests go to: the newest one.
pub struct ConnectionSlot {
    current: Option<Connection>,
}

fn same_bytes(a: &Vec<u8>, b: &Vec<u8>) -> (r: bool)
    ensures
        r == (a@ == b@),
{
    if a.len() != b.len() {
        return false;
    }
    let mut i: usize = 0;
    while i < a.len()
        invariant
            i <= a@.len() == b@.len(),
            forall|k: int| 0 <= k < i ==> a@[k] == b@[k],
        decreases a@.len() - i,
    {
        if a[i] != b[i] {
            return false;
        }
        i += 1;
    }
    assert(a@ =~= b@);
    true
}

impl View for ConnectionSlot {
    type V = Option<ConnectionView>;

    closed spec fn view(&self) -> Option<ConnectionView> {
        match self.current {
            Some(connection) => Some(connection@),
            None => None,
        }
    }
}

impl ConnectionSlot {
    /// A slot without a connection.
    pub fn new() -> (slot: Self)
        ensures
            slot@ is None,
    {
        ConnectionSlot { current: None }
    }

    /// Whether requests go to this connection.
    pub fn owns(&self, peer: &Vec<u8>, conn_id: u64) -> (r: bool)
        ensures
            r == (self@ == Some((peer@, conn_id))),
    {
        match &self.current {
            Some(current) => current.conn_id == conn_id && same_bytes(&current.peer, peer),
            None => false,
        }
    }

    /// Offers a connection, which replaces an older one. Whether it was taken.
    pub fn offer(&mut self, peer: Vec<u8>, conn_id: u64) -> (taken: bool)
        ensures
            taken == (old(self)@ matches Some((_, current)) ==> current < conn_id),
            taken ==> final(self)@ == Some((peer@, conn_id)),
            !taken ==> final(self)@ == old(self)@,
    {
        let newer: bool = match &self.current {
            Some(current) => current.conn_id < conn_id,
            None => true,
        };
        if newer {
            self.current = Some(Connection { peer, conn_id });
        }
        newer
    }

    /// Gives a connection up, if it is the current one. Whether it was.
    pub fn remove(&mut self, peer: &Vec<u8>, conn_id: u64) -> (removed: bool)
        ensures
            removed == (old(self)@ == Some((peer@, conn_id))),
            removed ==> final(self)@ is None,
            !removed ==> final(self)@ == old(self)@,
    {
        let current: bool = self.owns(peer, conn_id);
        if current {
            self.current = None;
        }
        current
    }
}

/// The name under which the peer-to-peer stack knows a network.
pub fn network_label(network: ZcashNetwork) -> (s: &'static str)
    ensures
        s@ == (match network {
            ZcashNetwork::Main => "Mainnet"@,
            ZcashNetwork::Test => "Testnet"@,
        }),
{
    match network {
        ZcashNetwork::Main => "Mainnet",
        ZcashNetwork::Test => "Testnet",
    }
}

} // verus!

//! Which request carries an operation, over HTTP and over the wire protocol.

use crate::p2p::Message;
use crate::text::join;
use vstd::prelude::*;

verus! {

/// What a wallet asks of a server.
#[derive(Clone, Copy, Debug, PartialEq, Eq, Structural)]
pub enum Operation {
    NullifierMetadata,
    NullifierParams,
    NullifierQuery,
    WitnessMetadata,
    WitnessBroadcast,
    WitnessParams,
    WitnessQuery,
}

impl Operation {
    /// The last part of the operation's URL.
    pub open spec fn path_text(self) -> Seq<char> {
        match self {
            Operation::NullifierMetadata | Operation::WitnessMetadata => "metadata"@,
            Operation::NullifierParams | Operation::WitnessParams => "params"@,
            Operation::NullifierQuery | Operation::WitnessQuery => "query"@,
            Operation::WitnessBroadcast => "broadcast"@,
        }
    }

    /// The last part of the operation's URL.
    pub fn path(self) -> (s: &'static str)
        ensures
            s@ == self.path_text(),
    {
        match self {
            Operation::NullifierMetadata | Operation::WitnessMetadata => "metadata",
            Operation::NullifierParams | Operation::WitnessParams => "params",
            Operation::NullifierQuery | Operation::WitnessQuery => "query",
            Operation::WitnessBroadcast => "broadcast",
        }
    }

    /// The request message of the operation.
    pub open spec fn request(self) -> Message {
        match self {
            Operation::NullifierMetadata => Message::NullifierMetadataReq,
            Operation::NullifierParams => Message::NullifierParamsReq,
            Operation::NullifierQuery => Message::NullifierQueryReq,
            Operation::WitnessMetadata => Message::WitnessMetadataReq,
            Operation::WitnessBroadcast => Message::WitnessBroadcastReq,
            Operation::WitnessParams => Message::WitnessParamsReq,
            Operation::WitnessQuery => Message::WitnessQueryReq,
        }
    }

    /// The request message of the operation.
    pub fn message(self) -> (message: Message)
        ensures
            message == self.request(),
    {
        match self {
            Operation::NullifierMetadata => Message::NullifierMetadataReq,
            Operation::NullifierParams => Message::NullifierParamsReq,
            Operation::NullifierQuery => Message::NullifierQueryReq,
            Operation::WitnessMetadata => Message::WitnessMetadataReq,
            Operation::WitnessBroadcast => Message::WitnessBroadcastReq,
            Operation::WitnessParams => Message::WitnessParamsReq,
            Operation::WitnessQuery => Message::WitnessQueryReq,
        }
    }

    /// Whether the operation uploads a query.
    pub open spec fn uploads(self) -> bool {
        self == Operation::NullifierQuery || self == Operation::WitnessQuery
    }

    /// Whether the operation uploads a query.
    pub fn is_query(self) -> (r: bool)
        ensures
            r == self.uploads(),
    {
        match self {
            Operation::NullifierQuery | Operation::WitnessQuery => true,
            _ => false,
        }
    }
}

/// Every operation is carried by a request message.
pub proof fn law_operations_are_requests(operation: Operation)
    ensures
        crate::p2p::response_to(operation.request()) is Some,
{
}

/// A text without the slashes at its end.
pub open spec fn without_slashes(s: Seq<char>) -> Seq<char>
    decreases s.len(),
{
    if s.len() > 0 && s.last() == '/' {
        without_slashes(s.drop_last())
    } else {
        s
    }
}

/// The address of a server, without slashes at its end.
pub fn base_url(url: &str) -> (base: String)
    ensures
        base@ == without_slashes(url@),
{
    let mut n: usize = url.unicode_len();
    assert(url@.take(n as int) =~= url@);
    while n > 0 && url.get_char(n - 1) == '/'
        invariant
            n <= url@.len(),
            without_slashes(url@.take(n as int)) == without_slashes(url@),
        decreases n,
    {
        proof {
            assert(url@.take(n as int).last() == url@[n - 1]);
            assert(url@.take(n as int).drop_last() =~= url@.take(n - 1));
        }
        n -= 1;
    }
    let base = url.substring_char(0, n);
    assert(base@ =~= url@.take(n as int));
    base.to_owned()
}

/// An HTTP request: a query is posted, anything else is fetched.
#[derive(Debug, Clone)]
pub struct HttpRequest {
    pub post: bool,
    pub url: String,
}

/// The HTTP request of an operation at a server.
pub fn http_request(base_url: &str, operation: Operation) -> (r: HttpRequest)
    ensures
        r.post == operation.uploads(),
        r.url@ == base_url@ + "/"@ + operation.path_text(),
{
    let mut url = join(base_url, "/");
    url.append(operation.path());
    HttpRequest { post: operation.is_query(), url }
}

/// Whether an HTTP status says that the server is not ready.
pub fn is_unavailable(status: u16) -> (r: bool)
    ensures
        r == (status == 503),
{
    status == 503
}

/// The address of a server is what was given, less the slashes at its end, and
/// only those.
pub proof fn law_only_slashes_are_cut(s: Seq<char>)
    ensures
        without_slashes(s).len() <= s.len(),
        without_slashes(s) == s.take(without_slashes(s).len() as int),
        forall|i: int| without_slashes(s).len() <= i < s.len() ==> #[trigger] s[i] == '/',
        without_slashes(s).len() > 0 ==> without_slashes(s).last() != '/',
    decreases s.len(),
{
    if s.len() > 0 && s.last() == '/' {
        let less = s.drop_last();
        law_only_slashes_are_cut(less);
        assert(less.take(without_slashes(s).len() as int) =~= s.take(
            without_slashes(s).len() as int,
        ));
        assert forall|i: int| without_slashes(s).len() <= i < s.len() implies #[trigger] s[i]
            == '/' by {
            if i < less.len() {
                assert(less[i] == '/');
            }
        }
    } else {
        assert(s.take(s.len() as int) =~= s);
    }
}

/// Every operation has a message of its own, and only the two that carry a query
/// upload anything.
pub proof fn law_operations_differ(a: Operation, b: Operation)
    ensures
        a.request() == b.request() <==> a == b,
        a.uploads() <==> a.request() == Message::NullifierQueryReq || a.request()
            == Message::WitnessQueryReq,
        a.uploads() <==> a.path_text() == "query"@,
{
    reveal_strlit("query");
    reveal_strlit("params");
    reveal_strlit("metadata");
    reveal_strlit("broadcast");
    assert("query"@.len() == 5 && "params"@.len() == 6 && "metadata"@.len() == 8
        && "broadcast"@.len() == 9);
}

} // verus!

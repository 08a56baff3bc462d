//! The data plane: what a request is answered with.
//!
//! A request names a key by its path. The node first looks the key up in the
//! router; a key that lives elsewhere is answered with a redirect to its
//! owner, a key that lives here with the outcome of the cache operation. The
//! cache itself and the sockets are the caller's: the functions here take
//! what the cache returned and give the reply as plain values.

use vstd::prelude::*;
use vstd::string::StringSliceAdditionalSpecFns;
use crate::gossip::GossipState;
use crate::metrics::{Operation, Outcome};
use crate::proxy::{route, route_of, RouteDest, RouteDestView};

verus! {

/// The status codes that the data plane answers with.
pub const STATUS_OK: u16 = 200;

pub const STATUS_CREATED: u16 = 201;

pub const STATUS_NO_CONTENT: u16 = 204;

pub const STATUS_TEMPORARY_REDIRECT: u16 = 307;

pub const STATUS_BAD_REQUEST: u16 = 400;

pub const STATUS_NOT_FOUND: u16 = 404;

pub const STATUS_TOO_MANY_REQUESTS: u16 = 429;

/// Seconds that the data plane waits for open requests when it shuts down.
pub const DATA_DRAIN_SECS: u64 = 30;

/// Seconds that the control plane waits for open requests when it shuts down.
pub const CTRL_DRAIN_SECS: u64 = 10;

/// The method of a request.
#[derive(Debug, Clone, Copy, PartialEq, Eq, Structural)]
pub enum Method {
    Get,
    Put,
    Delete,
    Other,
}

/// The body of a reply as mathematical values.
pub ghost enum PayloadView {
    Empty,
    Text(Seq<char>),
    Bytes(Seq<u8>),
}

/// The body of a reply. Text goes out as `text/plain`, bytes as
/// `application/octet-stream`.
#[derive(Debug)]
pub enum Payload {
    Empty,
    Text(String),
    Bytes(Vec<u8>),
}

impl View for Payload {
    type V = PayloadView;

    open spec fn view(&self) -> PayloadView {
        match self {
            Payload::Empty => PayloadView::Empty,
            Payload::Text(t) => PayloadView::Text(t@),
            Payload::Bytes(b) => PayloadView::Bytes(b@),
        }
    }
}

/// A reply as mathematical values.
pub ghost struct ReplyView {
    pub status: u16,
    pub location: Option<Seq<char>>,
    pub payload: PayloadView,
}

/// A reply: its status, the `Location` header where it has one, its body.
#[derive(Debug)]
pub struct Reply {
    pub status: u16,
    pub location: Option<String>,
    pub payload: Payload,
}

impl View for Reply {
    type V = ReplyView;

    open spec fn view(&self) -> ReplyView {
        ReplyView {
            status: self.status,
            location: match self.location {
                Some(l) => Some(l@),
                None => None,
            },
            payload: self.payload@,
        }
    }
}

/// The reply to a request that found the node overloaded.
pub fn too_many_requests() -> (r: Reply)
    ensures
        r@ == (ReplyView {
            status: STATUS_TOO_MANY_REQUESTS,
            location: None,
            payload: PayloadView::Text("429 Too Many Requests"@),
        }),
{
    Reply {
        status: STATUS_TOO_MANY_REQUESTS,
        location: None,
        payload: Payload::Text("429 Too Many Requests".to_string()),
    }
}

/// The reply that sends the client on to `location`.
pub fn temporary_redirect(location: &str) -> (r: Reply)
    ensures
        r@ == (ReplyView {
            status: STATUS_TEMPORARY_REDIRECT,
            location: Some(location@),
            payload: PayloadView::Text("307 Temporary Redirect"@),
        }),
{
    Reply {
        status: STATUS_TEMPORARY_REDIRECT,
        location: Some(location.to_string()),
        payload: Payload::Text("307 Temporary Redirect".to_string()),
    }
}

/// The reply to a `GET` that found `body`.
pub fn get_success(body: Vec<u8>) -> (r: Reply)
    ensures
        r@ == (ReplyView { status: STATUS_OK, location: None, payload: PayloadView::Bytes(body@) }),
{
    Reply { status: STATUS_OK, location: None, payload: Payload::Bytes(body) }
}

/// The reply to a `GET` that found nothing.
pub fn get_not_found() -> (r: Reply)
    ensures
        r@ == (ReplyView {
            status: STATUS_NOT_FOUND,
            location: None,
            payload: PayloadView::Text("404 Not Found"@),
        }),
{
    Reply {
        status: STATUS_NOT_FOUND,
        location: None,
        payload: Payload::Text("404 Not Found".to_string()),
    }
}

/// The reply to a `PUT` that was stored.
pub fn put_success() -> (r: Reply)
    ensures
        r@ == (ReplyView {
            status: STATUS_CREATED,
            location: None,
            payload: PayloadView::Text("201 Created"@),
        }),
{
    Reply {
        status: STATUS_CREATED,
        location: None,
        payload: Payload::Text("201 Created".to_string()),
    }
}

/// The reply to a `PUT` whose body could not be read.
pub fn put_bad_request() -> (r: Reply)
    ensures
        r@ == (ReplyView {
            status: STATUS_BAD_REQUEST,
            location: None,
            payload: PayloadView::Text("400 Bad Request"@),
        }),
{
    Reply {
        status: STATUS_BAD_REQUEST,
        location: None,
        payload: Payload::Text("400 Bad Request".to_string()),
    }
}

/// The reply to a `DELETE`.
pub fn delete_success() -> (r: Reply)
    ensures
        r@ == (ReplyView { status: STATUS_NO_CONTENT, location: None, payload: PayloadView::Empty }),
{
    Reply { status: STATUS_NO_CONTENT, location: None, payload: Payload::Empty }
}

/// What a request led to, as mathematical values.
pub ghost struct ServedView {
    pub reply: ReplyView,
    pub operation: Operation,
    pub status: Outcome,
    pub bytes: Option<u64>,
}

/// What a request led to: the reply, the labels under which it is counted,
/// and the number of payload bytes to count, where there is a payload.
#[derive(Debug)]
pub struct Served {
    pub reply: Reply,
    pub operation: Operation,
    pub status: Outcome,
    pub bytes: Option<u64>,
}

impl View for Served {
    type V = ServedView;

    open spec fn view(&self) -> ServedView {
        ServedView {
            reply: self.reply@,
            operation: self.operation,
            status: self.status,
            bytes: self.bytes,
        }
    }
}

/// Answers a `GET` for which the cache returned `found`.
pub fn get(found: Option<Vec<u8>>) -> (s: Served)
    ensures
        s@ == match found {
            Some(value) => ServedView {
                reply: ReplyView {
                    status: STATUS_OK,
                    location: None,
                    payload: PayloadView::Bytes(value@),
                },
                operation: Operation::Get,
                status: Outcome::Success,
                bytes: Some(value@.len() as u64),
            },
            None => ServedView {
                reply: ReplyView {
                    status: STATUS_NOT_FOUND,
                    location: None,
                    payload: PayloadView::Text("404 Not Found"@),
                },
                operation: Operation::Get,
                status: Outcome::NotFound,
                bytes: None,
            },
        },
{
    match found {
        Some(value) => {
            let n: u64 = value.len() as u64;
            Served {
                reply: get_success(value),
                operation: Operation::Get,
                status: Outcome::Success,
                bytes: Some(n),
            }
        },
        None => Served {
            reply: get_not_found(),
            operation: Operation::Get,
            status: Outcome::NotFound,
            bytes: None,
        },
    }
}

/// Answers a `PUT`: `stored` is the length of the body that went into the
/// cache, or `None` where the body could not be read.
pub fn put(stored: Option<usize>) -> (s: Served)
    ensures
        s@ == match stored {
            Some(len) => ServedView {
                reply: ReplyView {
                    status: STATUS_CREATED,
                    location: None,
                    payload: PayloadView::Text("201 Created"@),
                },
                operation: Operation::Put,
                status: Outcome::Success,
                bytes: Some(len as u64),
            },
            None => ServedView {
                reply: ReplyView {
                    status: STATUS_BAD_REQUEST,
                    location: None,
                    payload: PayloadView::Text("400 Bad Request"@),
                },
                operation: Operation::Put,
                status: Outcome::Failure,
                bytes: None,
            },
        },
{
    match stored {
        Some(len) => Served {
            reply: put_success(),
            operation: Operation::Put,
            status: Outcome::Success,
            bytes: Some(len as u64),
        },
        None => Served {
            reply: put_bad_request(),
            operation: Operation::Put,
            status: Outcome::Failure,
            bytes: None,
        },
    }
}

/// Answers a `DELETE`, after the key was taken out of the cache.
pub fn delete() -> (s: Served)
    ensures
        s@ == (ServedView {
            reply: ReplyView {
                status: STATUS_NO_CONTENT,
                location: None,
                payload: PayloadView::Empty,
            },
            operation: Operation::Delete,
            status: Outcome::Success,
            bytes: None,
        }),
{
    Served {
        reply: delete_success(),
        operation: Operation::Delete,
        status: Outcome::Success,
        bytes: None,
    }
}

/// The value of a hexadecimal digit, if `c` is one.
pub open spec fn hex_value(c: u8) -> Option<u8> {
    if 0x30 <= c <= 0x39 {
        Some((c - 0x30) as u8)
    } else if 0x41 <= c <= 0x46 {
        Some((c - 0x41 + 10) as u8)
    } else if 0x61 <= c <= 0x66 {
        Some((c - 0x61 + 10) as u8)
    } else {
        None
    }
}

/// Percent-decoding: each `%` that two hexadecimal digits follow stands for
/// the byte that the digits spell; every other byte stands for itself.
pub open spec fn percent_decoded(s: Seq<u8>) -> Seq<u8>
    decreases s.len(),
{
    if s.len() == 0 {
        s
    } else if s[0] == 0x25 && s.len() >= 3 && hex_value(s[1]) is Some && hex_value(s[2]) is Some {
        seq![(hex_value(s[1])->0 * 16 + hex_value(s[2])->0) as u8] + percent_decoded(s.skip(3))
    } else {
        seq![s[0]] + percent_decoded(s.skip(1))
    }
}

/// Calls `urlencoding::decode_binary`, which replaces each `%` followed by
/// two hexadecimal digits by the byte they spell and copies every other byte,
/// a `+` and a `%` without two digits included.
#[verifier::external_body]
fn percent_decode(data: &[u8]) -> (r: Vec<u8>)
    ensures
        r@ == percent_decoded(data@),
{
    urlencoding::decode_binary(data).into_owned()
}

/// The part of a request path that names the key: the path without its
/// leading `/`.
pub open spec fn key_part(path: Seq<u8>) -> Seq<u8> {
    if path.len() > 0 && path[0] == 0x2f {
        path.skip(1)
    } else {
        path
    }
}

/// The key that the request path `path` names: all that follows the leading
/// `/`, further slashes included, percent-decoded.
pub fn storage_key(path: &[u8]) -> (key: Vec<u8>)
    ensures
        key@ == percent_decoded(key_part(path@)),
{
    if path.len() > 0 && path[0] == 0x2f {
        let rest: &[u8] = vstd::slice::slice_subrange(path, 1, path.len());
        assert(rest@ =~= path@.skip(1));
        percent_decode(rest)
    } else {
        percent_decode(path)
    }
}

/// The operation under which a request with `method` is counted.
pub fn operation_of(method: Method) -> (op: Operation)
    ensures
        op == match method {
            Method::Get => Operation::Get,
            Method::Put => Operation::Put,
            Method::Delete => Operation::Delete,
            Method::Other => Operation::Unknown,
        },
{
    match method {
        Method::Get => Operation::Get,
        Method::Put => Operation::Put,
        Method::Delete => Operation::Delete,
        Method::Other => Operation::Unknown,
    }
}

/// Whether a request is served here or sent on.
#[derive(Debug)]
pub enum Dispatch {
    /// The key lives here: the storage path runs.
    Local,
    /// The key lives elsewhere: this is the answer.
    Redirect(Served),
}

/// The `Location` of a redirect to the node that advertises `remote`, for a
/// request with the path `path`.
pub open spec fn redirect_location(remote: Seq<char>, path: Seq<char>) -> Seq<char> {
    remote + path
}

/// What follows from the route `dest` for a request with `method` and
/// `path`: a local key is served; a remote one is answered with a temporary
/// redirect to the owner's address followed by the path, counted as a
/// redirect under the request's operation.
pub fn dispatch(dest: RouteDest, method: Method, path: &str) -> (d: Dispatch)
    ensures
        match dest@ {
            RouteDestView::Local => d is Local,
            RouteDestView::RemoteAddr(remote) => d matches Dispatch::Redirect(s) && s@ == (
            ServedView {
                reply: ReplyView {
                    status: STATUS_TEMPORARY_REDIRECT,
                    location: Some(redirect_location(remote, path@)),
                    payload: PayloadView::Text("307 Temporary Redirect"@),
                },
                operation: match method {
                    Method::Get => Operation::Get,
                    Method::Put => Operation::Put,
                    Method::Delete => Operation::Delete,
                    Method::Other => Operation::Unknown,
                },
                status: Outcome::Redirect,
                bytes: None,
            }),
        },
{
    match dest {
        RouteDest::Local => Dispatch::Local,
        RouteDest::RemoteAddr(addr) => {
            let mut location: String = addr;
            location.append(path);
            Dispatch::Redirect(
                Served {
                    reply: temporary_redirect(location.as_str()),
                    operation: operation_of(method),
                    status: Outcome::Redirect,
                    bytes: None,
                },
            )
        },
    }
}

/// A redirect leads to the owner: the `Location` starts with the address
/// that the route names.
pub proof fn lemma_redirect_prefix(remote: Seq<char>, path: Seq<char>)
    ensures
        remote.is_prefix_of(redirect_location(remote, path)),
        redirect_location(remote, path).subrange(0, remote.len() as int) == remote,
{
    assert(redirect_location(remote, path).subrange(0, remote.len() as int) =~= remote);
}

/// Routes a request: the key that `path` names is looked up in the router of
/// `gossip`, and what follows from the route is returned with the key.
pub fn route_request(gossip: &GossipState, method: Method, path: &str) -> (r: (Vec<u8>, Dispatch))
    requires
        gossip.wf(),
    ensures
        r.0@ == percent_decoded(key_part(path.spec_bytes())),
        match route_of(
            gossip.hash_ring()@,
            gossip.members()@,
            gossip.node()@.node_id,
            r.0@,
        ) {
            RouteDestView::Local => r.1 is Local,
            RouteDestView::RemoteAddr(remote) => r.1 matches Dispatch::Redirect(s) && {
                &&& s.reply.status == STATUS_TEMPORARY_REDIRECT
                &&& s@.reply.location == Some(redirect_location(remote, path@))
                &&& remote.is_prefix_of(s@.reply.location->0)
                &&& s.status == Outcome::Redirect
            },
        },
{
    let key: Vec<u8> = storage_key(path.as_bytes());
    let dest: RouteDest = route(gossip, key.as_slice());
    proof {
        if dest@ is RemoteAddr {
            lemma_redirect_prefix(dest@->RemoteAddr_0, path@);
        }
    }
    let d: Dispatch = dispatch(dest, method, path);
    (key, d)
}

} // verus!

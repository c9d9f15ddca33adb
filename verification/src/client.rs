//! IPC client: one fresh connection per call, a GET request built by
//! the codec, the platform-specific connect-retry policy, and the
//! mapping of the decoded response to the caller's result.
//!
//! The transport itself (opening the pipe or socket, writing, reading)
//! lives outside the library; everything the client decides — when to
//! retry a busy pipe, how long to back off, what a response means — is
//! here and verified.

use vstd::prelude::*;
use vstd::string::StringSliceAdditionalSpecFns;
use vstd::utf8::{valid_utf8, encode_utf8};
use crate::codec::{self, DecodeError, RawResponse};
use crate::endpoint::{BuildVariant, TransportKind};

verus! {

/// How many times a busy pipe is tried before giving up.
pub const PIPE_CONNECT_ATTEMPT_LIMIT: usize = 20;

/// The backoff after the `k`-th busy rejection is `15 * (k + 1)` ms.
pub const PIPE_BACKOFF_STEP_MS: u64 = 15;

/// Hard ceiling on waiting for a read-until-close body, in milliseconds.
pub const BODY_READ_TIMEOUT_MS: u64 = 5000;

/// A decoded response: the status code and the body as text.
pub struct IpcHttpResponse {
    pub status_code: u16,
    pub body: String,
}

/// The stateless IPC client; every call opens its own connection.
pub struct IpcClient;

/// Why a client call failed.
#[derive(Clone, Copy, PartialEq, Eq, Structural, Debug)]
pub enum ClientError {
    /// Every pipe connect attempt was rejected as busy.
    BusyExhausted,
    /// A connect failure that is not retried.
    ConnectFailed,
    /// Writing the request or reading the response failed.
    TransportFailed,
    /// The read-until-close body wait exceeded its budget.
    ReadTimeout,
    /// The response could not be decoded.
    Decode(DecodeError),
    /// A complete exchange whose status code is outside [200, 300).
    Http(u16),
}

/// What one connect attempt came back with.
#[derive(Clone, Copy, PartialEq, Eq, Structural, Debug)]
pub enum ConnectOutcome {
    Connected,
    /// The pipe rejected the connect as busy; worth retrying.
    Busy,
    /// Any other connect failure; never retried.
    Refused,
}

impl IpcClient {
    /// The endpoint address control traffic uses, distinct per
    /// transport and build variant.
    pub fn default_ipc_path(transport: TransportKind, variant: BuildVariant) -> (r: String)
        ensures
            r@ == transport.spec_endpoint(variant),
    {
        match (transport, variant) {
            (TransportKind::Pipe, BuildVariant::Development) => "\\\\.\\pipe\\stelliberty_dev".to_owned(),
            (TransportKind::Pipe, BuildVariant::Production) => "\\\\.\\pipe\\stelliberty".to_owned(),
            (TransportKind::Socket, BuildVariant::Development) => "/tmp/stelliberty_dev.sock".to_owned(),
            (TransportKind::Socket, BuildVariant::Production) => "/tmp/stelliberty.sock".to_owned(),
        }
    }

    /// Build the bytes of a request for the wire.
    pub fn build_http_request(method: &str, path: &str, body: Option<&str>) -> (r: Vec<u8>)
        ensures
            r@ == codec::encoded_request(
                method.spec_bytes(),
                path.spec_bytes(),
                match body {
                    Some(b) => Some(b.spec_bytes()),
                    None => None,
                },
            ),
    {
        codec::encode_request(method, path, body)
    }

    /// Decode the bytes a completed exchange delivered into a textual
    /// response: the framing per the codec, then the body as UTF-8.
    pub fn read_http_response(data: &Vec<u8>) -> (r: Result<IpcHttpResponse, DecodeError>)
        ensures
            codec::response_of(data@) matches Err(e) ==> r matches Err(e2) && e2 == e,
            codec::response_of(data@) matches Ok(p) ==> {
                if valid_utf8(p.1) {
                    &&& r matches Ok(resp)
                    &&& resp.status_code == p.0
                    &&& encode_utf8(resp.body@) == p.1
                } else {
                    r matches Err(e) && e == DecodeError::BodyNotUtf8
                }
            },
    {
        match codec::decode_response(data) {
            Err(e) => Err(e),
            Ok(raw) => {
                let RawResponse { status_code, body } = raw;
                match bytes_to_string(body) {
                    None => Err(DecodeError::BodyNotUtf8),
                    Some(text) => Ok(IpcHttpResponse { status_code, body: text }),
                }
            },
        }
    }

    /// The caller-facing meaning of a decoded response: only a 2xx
    /// status is success, and then the body is the result.
    pub fn classify_response(resp: IpcHttpResponse) -> (r: Result<String, ClientError>)
        ensures
            200 <= resp.status_code < 300 ==> r == Ok::<String, ClientError>(resp.body),
            !(200 <= resp.status_code < 300) ==> r == Err::<String, ClientError>(
                ClientError::Http(resp.status_code),
            ),
    {
        if 200 <= resp.status_code && resp.status_code < 300 {
            Ok(resp.body)
        } else {
            Err(ClientError::Http(resp.status_code))
        }
    }

    /// Everything a GET call does once the bytes are in hand: decode
    /// the response and judge its status.
    pub fn interpret_exchange(data: &Vec<u8>) -> (r: Result<String, ClientError>)
        ensures
            codec::response_of(data@) matches Err(e) ==> r == Err::<String, ClientError>(
                ClientError::Decode(e),
            ),
            codec::response_of(data@) matches Ok(p) ==> {
                if !valid_utf8(p.1) {
                    r == Err::<String, ClientError>(ClientError::Decode(DecodeError::BodyNotUtf8))
                } else if 200 <= p.0 < 300 {
                    r matches Ok(b) && encode_utf8(b@) == p.1
                } else {
                    r == Err::<String, ClientError>(ClientError::Http(p.0))
                }
            },
    {
        match Self::read_http_response(data) {
            Err(e) => Err(ClientError::Decode(e)),
            Ok(resp) => Self::classify_response(resp),
        }
    }
}

/// Relies on `String::from_utf8`: it succeeds exactly on valid UTF-8,
/// and the returned string's bytes are the input bytes unchanged.
#[verifier::external_body]
fn bytes_to_string(v: Vec<u8>) -> (r: Option<String>)
    ensures
        r is Some <==> valid_utf8(v@),
        r matches Some(s) ==> encode_utf8(s@) == v@,
{
    match String::from_utf8(v) {
        Ok(s) => Some(s),
        Err(_) => None,
    }
}

// ---------------------------------------------------------------------------
// Pipe connect-retry policy
// ---------------------------------------------------------------------------

/// Total backoff slept after `j` busy rejections: 15 + 30 + ... + 15·j ms.
pub open spec fn total_backoff(j: nat) -> nat
    decreases j,
{
    if j == 0 {
        0
    } else {
        total_backoff((j - 1) as nat) + 15 * j
    }
}

/// The first attempt index whose outcome is not `Busy`, or `outcomes.len()`.
pub open spec fn first_non_busy(outcomes: Seq<ConnectOutcome>) -> int
    decreases outcomes.len(),
{
    if outcomes.len() == 0 {
        0
    } else if !(outcomes[0] is Busy) {
        0
    } else {
        1 + first_non_busy(outcomes.drop_first())
    }
}

pub proof fn lemma_first_non_busy(outcomes: Seq<ConnectOutcome>)
    ensures
        0 <= first_non_busy(outcomes) <= outcomes.len(),
        first_non_busy(outcomes) < outcomes.len() ==> !(outcomes[first_non_busy(outcomes)]
            is Busy),
        forall|i: int| 0 <= i < first_non_busy(outcomes) ==> outcomes[i] is Busy,
    decreases outcomes.len(),
{
    if outcomes.len() > 0 && outcomes[0] is Busy {
        lemma_first_non_busy(outcomes.drop_first());
        assert forall|i: int| 0 <= i < first_non_busy(outcomes) implies outcomes[i] is Busy by {
            if i > 0 {
                assert(outcomes.drop_first()[i - 1] == outcomes[i]);
            }
        }
    }
}

/// Drive the pipe connect-retry loop over the attempts' outcomes, one
/// per entry: a busy rejection sleeps `15 · (attempt + 1)` ms and tries
/// again, up to twenty attempts in all; any other failure aborts at
/// once; success returns the index of the attempt that connected.
/// Also returns the total backoff slept.
pub fn pipe_connect_schedule(outcomes: &Vec<ConnectOutcome>) -> (r: (
    Result<usize, ClientError>,
    u64,
))
    requires
        outcomes@.len() >= PIPE_CONNECT_ATTEMPT_LIMIT,
    ensures
        ({
            let fb = first_non_busy(outcomes@);
            if fb < PIPE_CONNECT_ATTEMPT_LIMIT {
                &&& (outcomes@[fb] is Connected ==> r.0 == Ok::<usize, ClientError>(fb as usize))
                &&& (outcomes@[fb] is Refused ==> r.0 == Err::<usize, ClientError>(
                    ClientError::ConnectFailed,
                ))
                &&& r.1 == total_backoff(fb as nat)
            } else {
                &&& r.0 == Err::<usize, ClientError>(ClientError::BusyExhausted)
                &&& r.1 == total_backoff((PIPE_CONNECT_ATTEMPT_LIMIT - 1) as nat)
            }
        }),
{
    proof {
        lemma_first_non_busy(outcomes@);
    }
    let ghost fb = first_non_busy(outcomes@);
    let mut k: usize = 0;
    let mut delay: u64 = 0;
    loop
        invariant
            outcomes@.len() >= PIPE_CONNECT_ATTEMPT_LIMIT,
            0 <= k < PIPE_CONNECT_ATTEMPT_LIMIT,
            k <= fb,
            fb == first_non_busy(outcomes@),
            0 <= fb <= outcomes@.len(),
            fb < outcomes@.len() ==> !(outcomes@[fb] is Busy),
            forall|i: int| 0 <= i < fb ==> outcomes@[i] is Busy,
            delay == total_backoff(k as nat),
            delay <= 285 * k,
        decreases PIPE_CONNECT_ATTEMPT_LIMIT - k,
    {
        let o = outcomes[k];
        match o {
            ConnectOutcome::Connected => {
                proof {
                    assert(fb == k);
                }
                return (Ok(k), delay);
            },
            ConnectOutcome::Refused => {
                proof {
                    assert(fb == k);
                }
                return (Err(ClientError::ConnectFailed), delay);
            },
            ConnectOutcome::Busy => {
                proof {
                    assert(outcomes@[k as int] is Busy);
                    assert(fb > k);
                }
                if k + 1 >= PIPE_CONNECT_ATTEMPT_LIMIT {
                    proof {
                        assert(fb >= PIPE_CONNECT_ATTEMPT_LIMIT);
                    }
                    return (Err(ClientError::BusyExhausted), delay);
                }
                delay = delay + PIPE_BACKOFF_STEP_MS * ((k as u64) + 1);
                k = k + 1;
            },
        }
    }
}

/// On the socket transport there is no retry: only a completed connect
/// proceeds, any failure surfaces at once.
pub fn socket_connect_decision(outcome: ConnectOutcome) -> (r: Result<(), ClientError>)
    ensures
        outcome is Connected ==> r == Ok::<(), ClientError>(()),
        !(outcome is Connected) ==> r == Err::<(), ClientError>(ClientError::ConnectFailed),
{
    match outcome {
        ConnectOutcome::Connected => Ok(()),
        _ => Err(ClientError::ConnectFailed),
    }
}

/// Law: with nineteen busy rejections and a successful twentieth
/// attempt the client connects, and its total backoff is
/// 15 + 30 + ... + 285 = 2850 ms; with twenty busy rejections the
/// budget is exhausted, after the same total backoff, and no further
/// attempt is consulted.
pub proof fn lemma_pipe_busy_backoff(outcomes: Seq<ConnectOutcome>)
    requires
        outcomes.len() == 20,
        forall|i: int| 0 <= i < 19 ==> outcomes[i] is Busy,
    ensures
        outcomes[19] is Connected ==> first_non_busy(outcomes) == 19,
        !(outcomes[19] is Busy) ==> first_non_busy(outcomes) < 20,
        outcomes[19] is Busy ==> first_non_busy(outcomes) == 20,
        total_backoff(19) == 2850,
{
    lemma_first_non_busy(outcomes);
    if first_non_busy(outcomes) < 19 {
        assert(outcomes[first_non_busy(outcomes)] is Busy);
    }
    assert(total_backoff(19) == 2850) by {
        reveal_with_fuel(total_backoff, 21);
    }
}

} // verus!

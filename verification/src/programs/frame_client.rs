//! The frame service's client: sends a fixed request, works out by itself what
//! the answer must be, and signals whether that is what came back.

use crate::bytes::same_bytes;
use crate::frame_demo::{CLIENT_FAILURE_CPTR, CLIENT_SUCCESS_CPTR, ENDPOINT_CPTR};
use crate::launch::CPtr;
use crate::programs::frame_service::{complement, complemented, law_answer_differs_from_request};
use vstd::prelude::*;

verus! {

/// The operation that is asked for. There is only one.
pub const OP: u16 = 7;

/// `hello frame`.
pub open spec fn request_bytes() -> Seq<u8> {
    seq![0x68u8, 0x65, 0x6C, 0x6C, 0x6F, 0x20, 0x66, 0x72, 0x61, 0x6D, 0x65]
}

/// The call to make: on which endpoint, for which operation, with which request,
/// and with how much room for the reply.
pub struct Call {
    pub endpoint: CPtr,
    pub op: u16,
    pub request: [u8; 11],
    pub reply_cap: usize,
}

/// What came back of the call: nothing, or a status, a length and the reply
/// buffer.
pub struct Reply<'a> {
    pub status_ok: bool,
    pub len: usize,
    pub buffer: &'a [u8],
}

/// The reply is what the service must answer.
pub open spec fn matches_request(reply: Option<Reply>) -> bool {
    reply matches Some(r) && r.status_ok && r.len == request_bytes().len() && r.buffer@
        == complemented(request_bytes())
}

/// The request.
pub fn request() -> (bytes: [u8; 11])
    ensures
        bytes@ == request_bytes(),
{
    let bytes: [u8; 11] = [
        0x68, 0x65, 0x6C, 0x6C, 0x6F, 0x20, 0x66, 0x72, 0x61, 0x6D, 0x65,
    ];
    assert(bytes@ =~= request_bytes());
    bytes
}

/// What to call. There is just enough room for the right answer.
pub fn start() -> (call: Call)
    ensures
        call.endpoint == ENDPOINT_CPTR,
        call.op == OP,
        call.request@ == request_bytes(),
        call.reply_cap == complemented(request_bytes()).len(),
{
    Call { endpoint: ENDPOINT_CPTR, op: OP, request: request(), reply_cap: 11 }
}

/// Which notification to signal for what came back.
pub fn judge(reply: Option<Reply>) -> (slot: CPtr)
    ensures
        slot == (if matches_request(reply) {
            CLIENT_SUCCESS_CPTR
        } else {
            CLIENT_FAILURE_CPTR
        }),
{
    let sent: [u8; 11] = request();
    let expected: Vec<u8> = complement(sent.as_slice());
    match reply {
        Some(r) => {
            if r.status_ok && r.len == 11 && same_bytes(r.buffer, expected.as_slice()) {
                CLIENT_SUCCESS_CPTR
            } else {
                CLIENT_FAILURE_CPTR
            }
        },
        None => CLIENT_FAILURE_CPTR,
    }
}

/// A service that answers as it must is found to, and one that merely echoes
/// the request is found out.
pub proof fn law_only_the_right_answer_succeeds(honest: Reply, echo: Reply)
    requires
        honest.status_ok,
        honest.len == 11,
        honest.buffer@ == complemented(request_bytes()),
        echo.buffer@ == request_bytes(),
    ensures
        matches_request(Some(honest)),
        !matches_request(Some(echo)),
        !matches_request(None),
{
    law_answer_differs_from_request(request_bytes());
}

} // verus!

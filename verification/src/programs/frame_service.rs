//! The frame service: answers one request with each of its bytes complemented.
//! Simple enough for the client to work out by itself, and different from every
//! request.

use vstd::prelude::*;

verus! {

/// The longest request that is taken.
pub const REQUEST_CAP: usize = 64;

/// The bytes, each complemented.
pub open spec fn complemented(bytes: Seq<u8>) -> Seq<u8> {
    Seq::new(bytes.len(), |i: int| (0xFF - bytes[i]) as u8)
}

/// Complements each byte.
pub fn complement(bytes: &[u8]) -> (result: Vec<u8>)
    ensures
        result@ == complemented(bytes@),
{
    let mut result: Vec<u8> = Vec::new();
    let mut i: usize = 0;
    while i < bytes.len()
        invariant
            i <= bytes@.len(),
            result@ == complemented(bytes@.take(i as int)),
        decreases bytes@.len() - i,
    {
        let byte: u8 = bytes[i];
        assert(!byte == 0xFF - byte) by (bit_vector);
        result.push(!byte);
        assert(result@ =~= complemented(bytes@.take(i + 1)));
        i = i + 1;
    }
    assert(bytes@.take(bytes@.len() as int) =~= bytes@);
    result
}

/// What to answer to a request that came through whole. One that did not has
/// been refused already.
pub fn serve(request: Option<&[u8]>) -> (reply: Option<Vec<u8>>)
    ensures
        reply is Some <==> request is Some,
        request matches Some(bytes) ==> reply->0@ == complemented(bytes@),
{
    match request {
        Some(bytes) => Some(complement(bytes)),
        None => None,
    }
}

/// Complementing twice gives the bytes back.
pub proof fn law_complementing_twice_gives_back(bytes: Seq<u8>)
    ensures
        complemented(complemented(bytes)) == bytes,
{
    assert(complemented(complemented(bytes)) =~= bytes);
}

/// No byte is its own complement, so the answer to a request that is not
/// empty is never the request itself.
pub proof fn law_answer_differs_from_request(bytes: Seq<u8>)
    requires
        bytes.len() > 0,
    ensures
        complemented(bytes) != bytes,
{
    assert(complemented(bytes)[0] != bytes[0]);
}

} // verus!

//! The keystore's client: gets access, has a secret encrypted, has the result
//! decrypted, and signals whether that gave the secret back.
//!
//! What it asks for says all that it hands over: the request that it sends is
//! the one that was encoded, the reply that it has decoded is the one that came
//! back, and what it has decrypted is the tag and the ciphertext that it got.

use crate::bytes::same_bytes;
use crate::keystore_demo::{CLIENT_FAILURE_CPTR, CLIENT_SUCCESS_CPTR, ENDPOINT_CPTR};
use crate::launch::CPtr;
use vstd::prelude::*;
use vstd::slice::slice_to_vec;

verus! {

/// The slot for the capability that the keystore grants.
pub const DEST_CPTR: CPtr = 2;

/// Every byte of the nonce.
pub const NONCE_BYTE: u8 = 6;

/// `a confined keystore secret`.
pub open spec fn plaintext_bytes() -> Seq<u8> {
    seq![
        0x61u8, 0x20, 0x63, 0x6F, 0x6E, 0x66, 0x69, 0x6E, 0x65, 0x64, 0x20, 0x6B, 0x65,
        0x79, 0x73, 0x74, 0x6F, 0x72, 0x65, 0x20, 0x73, 0x65, 0x63, 0x72, 0x65, 0x74,
    ]
}

/// `keystore-demo`.
pub open spec fn aad_bytes() -> Seq<u8> {
    seq![0x6Bu8, 0x65, 0x79, 0x73, 0x74, 0x6F, 0x72, 0x65, 0x2D, 0x64, 0x65, 0x6D, 0x6F]
}

/// The longest request that is sent, and the longest reply that is taken.
pub const REQUEST_CAP: usize = 128;

pub const REPLY_CAP: usize = 128;

/// What the client asks for. It is also what the client waits for the outcome
/// of.
#[derive(PartialEq, Eq, Debug)]
pub enum Action {
    /// Ask the keystore for access, to be granted at `dest`.
    Connect { endpoint: CPtr, dest: CPtr, word0: u64, word1: u64 },
    /// Encode the request to encrypt, under a nonce all of whose bytes are
    /// `nonce_byte`, in at most `cap` bytes.
    EncodeEncrypt { nonce_byte: u8, aad: Vec<u8>, plaintext: Vec<u8>, cap: usize },
    /// Send a request to encrypt, with room for a reply of `reply_cap` bytes.
    Encrypt { endpoint: CPtr, request: Vec<u8>, reply_cap: usize },
    /// Decode the reply to it.
    DecodeCiphertext { reply: Vec<u8> },
    /// Encode the request to decrypt, likewise.
    EncodeDecrypt {
        nonce_byte: u8,
        aad: Vec<u8>,
        tag: Vec<u8>,
        ciphertext: Vec<u8>,
        cap: usize,
    },
    /// Send a request to decrypt, likewise.
    Decrypt { endpoint: CPtr, request: Vec<u8>, reply_cap: usize },
    /// Decode the reply to it.
    DecodePlaintext { reply: Vec<u8> },
    /// The round trip is over: nothing where something failed on the way, and
    /// otherwise whether the secret came back.
    Finished { outcome: Option<bool> },
    /// Signal the verdict.
    Signal { slot: CPtr },
    /// Nothing, ever again.
    Idle,
}

/// What an [`Action`] says.
pub enum ActionView {
    Connect { endpoint: CPtr, dest: CPtr, word0: u64, word1: u64 },
    EncodeEncrypt { nonce_byte: u8, aad: Seq<u8>, plaintext: Seq<u8>, cap: usize },
    Encrypt { endpoint: CPtr, request: Seq<u8>, reply_cap: usize },
    DecodeCiphertext { reply: Seq<u8> },
    EncodeDecrypt {
        nonce_byte: u8,
        aad: Seq<u8>,
        tag: Seq<u8>,
        ciphertext: Seq<u8>,
        cap: usize,
    },
    Decrypt { endpoint: CPtr, request: Seq<u8>, reply_cap: usize },
    DecodePlaintext { reply: Seq<u8> },
    Finished { outcome: Option<bool> },
    Signal { slot: CPtr },
    Idle,
}

impl View for Action {
    type V = ActionView;

    open spec fn view(&self) -> ActionView {
        match *self {
            Action::Connect { endpoint, dest, word0, word1 } => ActionView::Connect {
                endpoint,
                dest,
                word0,
                word1,
            },
            Action::EncodeEncrypt { nonce_byte, aad, plaintext, cap } => ActionView::EncodeEncrypt {
                nonce_byte,
                aad: aad@,
                plaintext: plaintext@,
                cap,
            },
            Action::Encrypt { endpoint, request, reply_cap } => ActionView::Encrypt {
                endpoint,
                request: request@,
                reply_cap,
            },
            Action::DecodeCiphertext { reply } => ActionView::DecodeCiphertext { reply: reply@ },
            Action::EncodeDecrypt { nonce_byte, aad, tag, ciphertext, cap } =>
                ActionView::EncodeDecrypt {
                nonce_byte,
                aad: aad@,
                tag: tag@,
                ciphertext: ciphertext@,
                cap,
            },
            Action::Decrypt { endpoint, request, reply_cap } => ActionView::Decrypt {
                endpoint,
                request: request@,
                reply_cap,
            },
            Action::DecodePlaintext { reply } => ActionView::DecodePlaintext { reply: reply@ },
            Action::Finished { outcome } => ActionView::Finished { outcome },
            Action::Signal { slot } => ActionView::Signal { slot },
            Action::Idle => ActionView::Idle,
        }
    }
}

/// How what was asked for came out.
#[derive(Clone, Copy)]
pub enum Event<'a> {
    /// It is over, and there is nothing to tell.
    Returned,
    /// The encoded request, or nothing where it does not fit.
    Encoded { request: Option<&'a [u8]> },
    /// Whether the status is good, and the reply; or nothing where the channel
    /// failed.
    Answered { reply: Option<(bool, &'a [u8])> },
    /// The tag and the ciphertext, or nothing where the reply is malformed.
    Encrypted { decoded: Option<(&'a [u8], &'a [u8])> },
    /// What was decrypted.
    Decrypted { bytes: &'a [u8] },
}

/// What an [`Event`] says.
pub enum EventView {
    Returned,
    Encoded { request: Option<Seq<u8>> },
    Answered { reply: Option<(bool, Seq<u8>)> },
    Encrypted { decoded: Option<(Seq<u8>, Seq<u8>)> },
    Decrypted { bytes: Seq<u8> },
}

impl<'a> View for Event<'a> {
    type V = EventView;

    open spec fn view(&self) -> EventView {
        match *self {
            Event::Returned => EventView::Returned,
            Event::Encoded { request } => EventView::Encoded {
                request: match request {
                    Some(bytes) => Some(bytes@),
                    None => None,
                },
            },
            Event::Answered { reply } => EventView::Answered {
                reply: match reply {
                    Some((status_ok, bytes)) => Some((status_ok, bytes@)),
                    None => None,
                },
            },
            Event::Encrypted { decoded } => EventView::Encrypted {
                decoded: match decoded {
                    Some((tag, ciphertext)) => Some((tag@, ciphertext@)),
                    None => None,
                },
            },
            Event::Decrypted { bytes } => EventView::Decrypted { bytes: bytes@ },
        }
    }
}

/// Asks for access.
pub open spec fn first_action() -> ActionView {
    ActionView::Connect { endpoint: ENDPOINT_CPTR, dest: DEST_CPTR, word0: 0, word1: 0 }
}

/// Has the secret encrypted.
pub open spec fn encode_encrypt_action() -> ActionView {
    ActionView::EncodeEncrypt {
        nonce_byte: NONCE_BYTE,
        aad: aad_bytes(),
        plaintext: plaintext_bytes(),
        cap: REQUEST_CAP,
    }
}

/// Has what came back decrypted, under the same nonce and with the same data.
pub open spec fn encode_decrypt_action(tag: Seq<u8>, ciphertext: Seq<u8>) -> ActionView {
    ActionView::EncodeDecrypt {
        nonce_byte: NONCE_BYTE,
        aad: aad_bytes(),
        tag,
        ciphertext,
        cap: REQUEST_CAP,
    }
}

/// Signals success exactly if the secret came back.
pub open spec fn verdict_action(outcome: Option<bool>) -> ActionView {
    ActionView::Signal {
        slot: if outcome == Some(true) {
            CLIENT_SUCCESS_CPTR
        } else {
            CLIENT_FAILURE_CPTR
        },
    }
}

/// What the client asks for next. A request that does not fit, a broken channel
/// and a malformed reply end the round trip without an outcome; a status that
/// is not good, and a ciphertext that is the plaintext, end it with a
/// mismatch.
pub open spec fn next_of(action: ActionView, event: EventView) -> ActionView {
    let failed = ActionView::Finished { outcome: None };
    let mismatch = ActionView::Finished { outcome: Some(false) };
    match action {
        ActionView::Connect { .. } => encode_encrypt_action(),
        ActionView::EncodeEncrypt { .. } => match event {
            EventView::Encoded { request: Some(request) } => ActionView::Encrypt {
                endpoint: DEST_CPTR,
                request,
                reply_cap: REPLY_CAP,
            },
            _ => failed,
        },
        ActionView::Encrypt { .. } => match event {
            EventView::Answered { reply: Some((status_ok, reply)) } => if status_ok {
                ActionView::DecodeCiphertext { reply }
            } else {
                mismatch
            },
            _ => failed,
        },
        ActionView::DecodeCiphertext { .. } => match event {
            EventView::Encrypted { decoded: Some((tag, ciphertext)) } => if ciphertext
                == plaintext_bytes() {
                mismatch
            } else {
                encode_decrypt_action(tag, ciphertext)
            },
            _ => failed,
        },
        ActionView::EncodeDecrypt { .. } => match event {
            EventView::Encoded { request: Some(request) } => ActionView::Decrypt {
                endpoint: DEST_CPTR,
                request,
                reply_cap: REPLY_CAP,
            },
            _ => failed,
        },
        ActionView::Decrypt { .. } => match event {
            EventView::Answered { reply: Some((status_ok, reply)) } => if status_ok {
                ActionView::DecodePlaintext { reply }
            } else {
                mismatch
            },
            _ => failed,
        },
        ActionView::DecodePlaintext { .. } => match event {
            EventView::Decrypted { bytes } => ActionView::Finished {
                outcome: Some(bytes == plaintext_bytes()),
            },
            _ => failed,
        },
        ActionView::Finished { outcome } => verdict_action(outcome),
        ActionView::Signal { .. } => ActionView::Idle,
        ActionView::Idle => ActionView::Idle,
    }
}

/// The secret.
pub fn plaintext() -> (bytes: [u8; 26])
    ensures
        bytes@ == plaintext_bytes(),
{
    let bytes: [u8; 26] = [
        0x61, 0x20, 0x63, 0x6F, 0x6E, 0x66, 0x69, 0x6E, 0x65, 0x64, 0x20, 0x6B, 0x65,
        0x79, 0x73, 0x74, 0x6F, 0x72, 0x65, 0x20, 0x73, 0x65, 0x63, 0x72, 0x65, 0x74,
    ];
    assert(bytes@ =~= plaintext_bytes());
    bytes
}

/// The data that is authenticated along with the secret.
pub fn aad() -> (bytes: [u8; 13])
    ensures
        bytes@ == aad_bytes(),
{
    let bytes: [u8; 13] = [
        0x6B, 0x65, 0x79, 0x73, 0x74, 0x6F, 0x72, 0x65, 0x2D, 0x64, 0x65, 0x6D, 0x6F,
    ];
    assert(bytes@ =~= aad_bytes());
    bytes
}

/// What the client asks for first.
pub fn start() -> (action: Action)
    ensures
        action@ == first_action(),
{
    Action::Connect { endpoint: ENDPOINT_CPTR, dest: DEST_CPTR, word0: 0, word1: 0 }
}

fn encode_encrypt() -> (action: Action)
    ensures
        action@ == encode_encrypt_action(),
{
    let secret: [u8; 26] = plaintext();
    let data: [u8; 13] = aad();
    Action::EncodeEncrypt {
        nonce_byte: NONCE_BYTE,
        aad: slice_to_vec(data.as_slice()),
        plaintext: slice_to_vec(secret.as_slice()),
        cap: REQUEST_CAP,
    }
}

/// What to ask for once the ciphertext is there.
fn after_encryption(tag: &[u8], ciphertext: &[u8]) -> (action: Action)
    ensures
        action@ == (if ciphertext@ == plaintext_bytes() {
            ActionView::Finished { outcome: Some(false) }
        } else {
            encode_decrypt_action(tag@, ciphertext@)
        }),
{
    let secret: [u8; 26] = plaintext();
    if same_bytes(ciphertext, secret.as_slice()) {
        return Action::Finished { outcome: Some(false) };
    }
    let data: [u8; 13] = aad();
    Action::EncodeDecrypt {
        nonce_byte: NONCE_BYTE,
        aad: slice_to_vec(data.as_slice()),
        tag: slice_to_vec(tag),
        ciphertext: slice_to_vec(ciphertext),
        cap: REQUEST_CAP,
    }
}

/// Goes on after what came of `action`.
pub fn step(action: &Action, event: Event) -> (next: Action)
    ensures
        next@ == next_of(action@, event@),
{
    match action {
        Action::Connect { .. } => encode_encrypt(),
        Action::EncodeEncrypt { .. } => match event {
            Event::Encoded { request: Some(request) } => Action::Encrypt {
                endpoint: DEST_CPTR,
                request: slice_to_vec(request),
                reply_cap: REPLY_CAP,
            },
            _ => Action::Finished { outcome: None },
        },
        Action::Encrypt { .. } => match event {
            Event::Answered { reply: Some((status_ok, reply)) } => {
                if status_ok {
                    Action::DecodeCiphertext { reply: slice_to_vec(reply) }
                } else {
                    Action::Finished { outcome: Some(false) }
                }
            },
            _ => Action::Finished { outcome: None },
        },
        Action::DecodeCiphertext { .. } => match event {
            Event::Encrypted { decoded: Some((tag, ciphertext)) } => after_encryption(
                tag,
                ciphertext,
            ),
            _ => Action::Finished { outcome: None },
        },
        Action::EncodeDecrypt { .. } => match event {
            Event::Encoded { request: Some(request) } => Action::Decrypt {
                endpoint: DEST_CPTR,
                request: slice_to_vec(request),
                reply_cap: REPLY_CAP,
            },
            _ => Action::Finished { outcome: None },
        },
        Action::Decrypt { .. } => match event {
            Event::Answered { reply: Some((status_ok, reply)) } => {
                if status_ok {
                    Action::DecodePlaintext { reply: slice_to_vec(reply) }
                } else {
                    Action::Finished { outcome: Some(false) }
                }
            },
            _ => Action::Finished { outcome: None },
        },
        Action::DecodePlaintext { .. } => match event {
            Event::Decrypted { bytes } => {
                let secret: [u8; 26] = plaintext();
                Action::Finished { outcome: Some(same_bytes(bytes, secret.as_slice())) }
            },
            _ => Action::Finished { outcome: None },
        },
        Action::Finished { outcome } => match outcome {
            Some(true) => Action::Signal { slot: CLIENT_SUCCESS_CPTR },
            _ => Action::Signal { slot: CLIENT_FAILURE_CPTR },
        },
        Action::Signal { .. } => Action::Idle,
        Action::Idle => Action::Idle,
    }
}

/// What the client asks for after `events`.
pub open spec fn action_after(events: Seq<EventView>) -> ActionView
    decreases events.len(),
{
    if events.len() == 0 {
        first_action()
    } else {
        next_of(action_after(events.drop_last()), events.last())
    }
}

/// What was asked for worked: a request was encoded, a call came back, a reply
/// was decoded.
pub open spec fn worked(action: ActionView, event: EventView) -> bool {
    match action {
        ActionView::EncodeEncrypt { .. } | ActionView::EncodeDecrypt { .. } => event matches
            EventView::Encoded { request } && request is Some,
        ActionView::Encrypt { .. } | ActionView::Decrypt { .. } => event matches
            EventView::Answered { reply } && reply is Some,
        ActionView::DecodeCiphertext { .. } => event matches EventView::Encrypted { decoded }
            && decoded is Some,
        ActionView::DecodePlaintext { .. } => event is Decrypted,
        _ => true,
    }
}

/// Everything went well: both requests could be encoded, both calls came back
/// with a good status, the secret was encrypted to `ciphertext`, which is
/// something else, with `tag`, and what was decrypted in the end is the secret.
pub open spec fn secret_came_back(
    events: Seq<EventView>,
    tag: Seq<u8>,
    ciphertext: Seq<u8>,
) -> bool {
    &&& events.len() >= 7
    &&& events[1] matches EventView::Encoded { request: Some(_) }
    &&& events[2] matches EventView::Answered { reply: Some((true, _)) }
    &&& events[3] == (EventView::Encrypted { decoded: Some((tag, ciphertext)) })
    &&& ciphertext != plaintext_bytes()
    &&& events[4] matches EventView::Encoded { request: Some(_) }
    &&& events[5] matches EventView::Answered { reply: Some((true, _)) }
    &&& events[6] == (EventView::Decrypted { bytes: plaintext_bytes() })
}

/// The request to decrypt was made from `tag` and `ciphertext`, under the nonce
/// and with the data that the secret was encrypted under; that request was sent,
/// and the reply to it was decoded.
pub open spec fn was_decrypted(events: Seq<EventView>, tag: Seq<u8>, ciphertext: Seq<u8>) -> bool {
    &&& events.len() >= 6
    &&& action_after(events.take(4)) == (ActionView::EncodeDecrypt {
        nonce_byte: 6,
        aad: aad_bytes(),
        tag,
        ciphertext,
        cap: 128,
    })
    &&& events[4] matches EventView::Encoded { request: Some(request) }
    &&& action_after(events.take(5)) == (ActionView::Decrypt {
        endpoint: 2,
        request,
        reply_cap: 128,
    })
    &&& events[5] matches EventView::Answered { reply: Some((true, reply)) }
    &&& action_after(events.take(6)) == (ActionView::DecodePlaintext { reply })
}

/// The secret was sent for encryption, and this tag and ciphertext, which is
/// not the secret, came back, whereupon they were put up for decryption.
pub open spec fn ciphertext_came(
    events: Seq<EventView>,
    tag: Seq<u8>,
    ciphertext: Seq<u8>,
) -> bool {
    &&& events.len() >= 4
    &&& action_after(events.take(1)) == (ActionView::EncodeEncrypt {
        nonce_byte: 6,
        aad: aad_bytes(),
        plaintext: plaintext_bytes(),
        cap: 128,
    })
    &&& events[1] matches EventView::Encoded { request: Some(request) }
    &&& action_after(events.take(2)) == (ActionView::Encrypt {
        endpoint: 2,
        request,
        reply_cap: 128,
    })
    &&& events[2] matches EventView::Answered { reply: Some((true, reply)) }
    &&& action_after(events.take(3)) == (ActionView::DecodeCiphertext { reply })
    &&& events[3] == (EventView::Encrypted { decoded: Some((tag, ciphertext)) })
    &&& ciphertext != plaintext_bytes()
    &&& action_after(events.take(4)) == (ActionView::EncodeDecrypt {
        nonce_byte: 6,
        aad: aad_bytes(),
        tag,
        ciphertext,
        cap: 128,
    })
}

/// Each step of the round trip has its place.
proof fn lemma_place(events: Seq<EventView>)
    ensures
        match action_after(events) {
            ActionView::Connect { .. } => events.len() == 0,
            ActionView::EncodeEncrypt { .. } => events.len() == 1,
            ActionView::Encrypt { .. } => events.len() == 2,
            ActionView::DecodeCiphertext { .. } => events.len() == 3,
            ActionView::EncodeDecrypt { .. } => events.len() == 4,
            ActionView::Decrypt { .. } => events.len() == 5,
            ActionView::DecodePlaintext { .. } => events.len() == 6,
            ActionView::Finished { .. } => 2 <= events.len() <= 7,
            ActionView::Signal { .. } => 3 <= events.len() <= 8,
            ActionView::Idle => events.len() >= 4,
        },
    decreases events.len(),
{
    if events.len() > 0 {
        lemma_place(events.drop_last());
    }
}

/// What led to the last action.
proof fn lemma_back(events: Seq<EventView>, n: int)
    requires
        0 < n <= events.len(),
    ensures
        action_after(events.take(n)) == next_of(action_after(events.take(n - 1)), events[n - 1]),
{
    assert(events.take(n).drop_last() =~= events.take(n - 1));
    assert(events.take(n).last() == events[n - 1]);
}

/// Nothing is put up for decryption, let alone sent, but the tag and the
/// ciphertext that the keystore answered with, under a good status, when the
/// client had the secret encrypted; under the nonce and with the data that the
/// secret was encrypted under; and only where the ciphertext is not the secret.
pub proof fn law_decrypts_what_was_encrypted(events: Seq<EventView>)
    requires
        action_after(events) is EncodeDecrypt || action_after(events) is Decrypt || action_after(
            events,
        ) is DecodePlaintext,
    ensures
        exists|tag: Seq<u8>, ciphertext: Seq<u8>| ciphertext_came(events, tag, ciphertext),
{
    let n: int = events.len() as int;
    lemma_place(events);
    assert(events.take(n) =~= events);
    if n > 5 {
        lemma_back(events, 6);
        lemma_place(events.take(5));
    }
    if n > 4 {
        lemma_back(events, 5);
        lemma_place(events.take(4));
    }
    lemma_back(events, 4);
    lemma_place(events.take(3));
    lemma_back(events, 3);
    lemma_place(events.take(2));
    lemma_back(events, 2);
    lemma_place(events.take(1));
    lemma_back(events, 1);
    let (tag, ciphertext) = events[3]->decoded->0;
    assert(ciphertext_came(events, tag, ciphertext));
}

/// Where everything went well, all was asked for in turn, and the outcome says
/// so.
proof fn lemma_went_well(events: Seq<EventView>, tag: Seq<u8>, ciphertext: Seq<u8>)
    requires
        secret_came_back(events, tag, ciphertext),
    ensures
        ciphertext_came(events, tag, ciphertext),
        was_decrypted(events, tag, ciphertext),
        action_after(events.take(7)) == (ActionView::Finished { outcome: Some(true) }),
{
    lemma_back(events, 1);
    lemma_back(events, 2);
    lemma_back(events, 3);
    lemma_back(events, 4);
    lemma_back(events, 5);
    lemma_back(events, 6);
    lemma_back(events, 7);
}

/// A round trip that is over has no outcome exactly if what was asked for last
/// did not work: a request did not fit, the channel broke, a reply was
/// malformed. It has the outcome that the secret came back exactly if it did;
/// and the opposite outcome otherwise.
pub proof fn law_outcome_of_the_round_trip(events: Seq<EventView>, outcome: Option<bool>)
    requires
        action_after(events) == (ActionView::Finished { outcome }),
    ensures
        events.len() > 0,
        outcome is None <==> !worked(action_after(events.drop_last()), events.last()),
        outcome == Some(true) <==> exists|tag: Seq<u8>, ciphertext: Seq<u8>|
            secret_came_back(events, tag, ciphertext),
{
    let before = events.drop_last();
    lemma_place(events);
    lemma_place(before);
    if action_after(before) is DecodePlaintext {
        law_decrypts_what_was_encrypted(before);
        let (tag, ciphertext) = choose|tag: Seq<u8>, ciphertext: Seq<u8>|
            ciphertext_came(before, tag, ciphertext);
        assert(before.take(6) =~= before);
        lemma_back(before, 5);
        lemma_back(before, 6);
        lemma_place(before.take(5));
        assert(action_after(before.take(5)) is Decrypt);
        if outcome == Some(true) {
            assert(secret_came_back(events, tag, ciphertext));
        }
    } else {
        assert forall|tag: Seq<u8>, ciphertext: Seq<u8>| secret_came_back(
            events,
            tag,
            ciphertext,
        ) implies false by {
            lemma_went_well(events, tag, ciphertext);
            assert(events.take(6) =~= before);
        }
    }
}

/// Success is signalled exactly if the secret came back. It came back from just
/// what it was encrypted to: the tag and the ciphertext that the keystore gave
/// were decrypted, under the same nonce and with the same data. Failure is
/// signalled at the other slot.
pub proof fn law_success_means_the_secret_came_back(events: Seq<EventView>)
    ensures
        action_after(events) == (ActionView::Signal { slot: 3 }) <==> {
            &&& events.len() == 8
            &&& exists|tag: Seq<u8>, ciphertext: Seq<u8>| secret_came_back(events, tag, ciphertext)
        },
        forall|tag: Seq<u8>, ciphertext: Seq<u8>| #[trigger]
            secret_came_back(events, tag, ciphertext) ==> ciphertext_came(events, tag, ciphertext)
                && was_decrypted(events, tag, ciphertext),
        action_after(events) matches ActionView::Signal { slot } ==> slot == 3 || slot == 4,
        events.len() == 0 ==> action_after(events) == (ActionView::Connect {
            endpoint: 1,
            dest: 2,
            word0: 0,
            word1: 0,
        }),
{
    assert forall|tag: Seq<u8>, ciphertext: Seq<u8>| #[trigger]
        secret_came_back(events, tag, ciphertext) implies ciphertext_came(events, tag, ciphertext)
        && was_decrypted(events, tag, ciphertext) by {
        lemma_went_well(events, tag, ciphertext);
    }
    lemma_place(events);
    if events.len() == 8 && exists|tag: Seq<u8>, ciphertext: Seq<u8>|
        secret_came_back(events, tag, ciphertext) {
        let (tag, ciphertext) = choose|tag: Seq<u8>, ciphertext: Seq<u8>|
            secret_came_back(events, tag, ciphertext);
        lemma_went_well(events, tag, ciphertext);
        assert(events.take(7) =~= events.drop_last());
    }
    if action_after(events) == (ActionView::Signal { slot: CLIENT_SUCCESS_CPTR }) {
        let before = events.drop_last();
        lemma_place(before);
        law_outcome_of_the_round_trip(before, Some(true));
        let (tag, ciphertext) = choose|tag: Seq<u8>, ciphertext: Seq<u8>|
            secret_came_back(before, tag, ciphertext);
        assert(secret_came_back(events, tag, ciphertext));
    }
}

/// Nothing is asked for after the verdict.
proof fn lemma_idle_after_the_verdict(events: Seq<EventView>, n: int)
    requires
        0 <= n < events.len(),
        action_after(events.take(n)) is Signal || action_after(events.take(n)) is Idle,
    ensures
        action_after(events) is Idle,
    decreases events.len(),
{
    let before = events.drop_last();
    assert(events.take(n) =~= before.take(n));
    if n < before.len() {
        lemma_idle_after_the_verdict(before, n);
    } else {
        assert(before.take(n) =~= before);
    }
}

/// A verdict is always signalled, after eight outcomes at the latest, and only one:
/// `n` is where.
pub proof fn law_one_verdict(events: Seq<EventView>) -> (n: int)
    requires
        events.len() >= 8,
    ensures
        3 <= n <= 8,
        action_after(events.take(n)) is Signal,
        forall|m: int|
            0 <= m <= events.len() && m != n ==> !(#[trigger] action_after(events.take(m))
                is Signal),
        n < events.len() ==> action_after(events) is Idle,
    decreases events.len(),
{
    lemma_place(events);
    let before = events.drop_last();
    assert(events.take(events.len() as int) =~= events);
    assert forall|m: int| 0 <= m < events.len() implies #[trigger] events.take(m) == before.take(
        m,
    ) by {
        assert(events.take(m) =~= before.take(m));
    }
    if action_after(events) is Signal {
        assert forall|m: int| 0 <= m < events.len() implies !(#[trigger] action_after(
            events.take(m),
        ) is Signal) by {
            if action_after(events.take(m)) is Signal {
                lemma_idle_after_the_verdict(events, m);
            }
        }
        events.len() as int
    } else if events.len() > 8 {
        law_one_verdict(before)
    } else {
        lemma_verdict_before(events)
    }
}

proof fn lemma_verdict_before(events: Seq<EventView>) -> (n: int)
    requires
        action_after(events) is Idle,
    ensures
        3 <= n < events.len(),
        action_after(events.take(n)) is Signal,
        forall|m: int|
            0 <= m <= events.len() && m != n ==> !(#[trigger] action_after(events.take(m))
                is Signal),
    decreases events.len(),
{
    let before = events.drop_last();
    lemma_place(events);
    lemma_place(before);
    assert(events.take(events.len() as int) =~= events);
    assert forall|m: int| 0 <= m < events.len() implies #[trigger] events.take(m) == before.take(
        m,
    ) by {
        assert(events.take(m) =~= before.take(m));
    }
    if action_after(before) is Idle {
        lemma_verdict_before(before)
    } else {
        assert(before.take(before.len() as int) =~= before);
        assert forall|m: int| 0 <= m < before.len() implies !(#[trigger] action_after(
            events.take(m),
        ) is Signal) by {
            if action_after(before.take(m)) is Signal {
                lemma_idle_after_the_verdict(before, m);
            }
        }
        before.len() as int
    }
}

} // verus!

//! What each confined program says and does, step by step.

use crate::launch::{CPtr, Rights};
use crate::programs::{
    broker_client, broker_service, frame_client, frame_service, hello_service, keystore_client,
    store_client,
};
use vstd::prelude::*;

verus! {

/// The answer is the request added to itself, as far as a word holds that; what
/// did not come in counts as zero.
pub proof fn law_hello_answer(word: Option<u64>, reply: u64)
    requires
        call_ensures(hello_service::answer, (word,), reply),
    ensures
        word matches Some(w) ==> reply == (w + w) % 0x1_0000_0000_0000_0000,
        word is None ==> reply == 0,
{
}

/// With argument 0 the program receives on slot 1 first, and with any other it
/// calls on slot 1, with 21.
pub proof fn law_hello_begins(
    arg0: u64,
    result: (hello_service::HelloService, hello_service::Action),
)
    requires
        call_ensures(hello_service::start, (arg0,), result),
    ensures
        arg0 == 0 ==> result == (
            hello_service::HelloService::Receiving { finished: 0 },
            hello_service::Action::Recv { endpoint: 1 },
        ),
        arg0 != 0 ==> result == (
            hello_service::HelloService::Calling { finished: 0 },
            hello_service::Action::Call { endpoint: 1, word0: 21, word1: 0, word2: 0 },
        ),
{
}

/// The server replies to what it received with its double, then receives again;
/// the client calls again; and each does so 2009 times, then idles.
pub proof fn law_hello_goes_on(
    state: hello_service::HelloService,
    event: hello_service::Event,
    result: (hello_service::HelloService, hello_service::Action),
)
    requires
        hello_service::expects(state, event),
        call_ensures(hello_service::step, (state, event), result),
    ensures
        match state {
            hello_service::HelloService::Receiving { finished } => {
                &&& result.0 == (hello_service::HelloService::Replying { finished })
                &&& event matches hello_service::Event::Received { word } && result.1 == (
                hello_service::Action::Reply {
                    word0: (if word is Some {
                        (word->0 + word->0) % 0x1_0000_0000_0000_0000
                    } else {
                        0
                    }) as u64,
                    word1: 0,
                    word2: 0,
                })
            },
            hello_service::HelloService::Replying { finished } => {
                &&& finished + 1 < 2009 ==> result == (
                    hello_service::HelloService::Receiving { finished: (finished + 1) as u32 },
                    hello_service::Action::Recv { endpoint: 1 },
                )
                &&& finished + 1 >= 2009 ==> result == (
                    hello_service::HelloService::Idle,
                    hello_service::Action::Idle,
                )
            },
            hello_service::HelloService::Calling { finished } => {
                &&& finished + 1 < 2009 ==> result == (
                    hello_service::HelloService::Calling { finished: (finished + 1) as u32 },
                    hello_service::Action::Call { endpoint: 1, word0: 21, word1: 0, word2: 0 },
                )
                &&& finished + 1 >= 2009 ==> result == (
                    hello_service::HelloService::Idle,
                    hello_service::Action::Idle,
                )
            },
            hello_service::HelloService::Idle => false,
        },
{
}

/// The broker receives on slot 1; then mints, in its own space at slot 0, a copy
/// of what it has at slot 2 to slot 3, to read, to write and to pass on; then,
/// if that worked, hands over slot 3 with the words 111 and 222.
pub proof fn law_broker_conversation(
    first: broker_service::Action,
    received: bool,
    second: broker_service::Action,
    minted: bool,
    third: broker_service::Action,
    granted: bool,
    last: broker_service::Action,
)
    requires
        call_ensures(broker_service::start, (), first),
        call_ensures(broker_service::step, (first, received), second),
        call_ensures(broker_service::step, (second, minted), third),
        call_ensures(broker_service::step, (third, granted), last),
    ensures
        first == (broker_service::Action::Recv { endpoint: 1 }),
        second == (broker_service::Action::Mint {
            cnode: 0,
            source: 2,
            dest: 3,
            rights: Rights::Only { read: true, write: true, grant: true },
        }),
        minted ==> third == (broker_service::Action::GrantViaReply {
            slot: 3,
            word0: 111,
            word1: 222,
        }),
        !minted ==> third == broker_service::Action::Idle,
        last == broker_service::Action::Idle,
{
}

/// The broker's client calls on slot 1, for a capability at slot 2, signals that
/// slot, and idles.
pub proof fn law_broker_client_conversation(
    first: broker_client::Action,
    second: broker_client::Action,
    third: broker_client::Action,
    last: broker_client::Action,
)
    requires
        call_ensures(broker_client::start, (), first),
        call_ensures(broker_client::step, (first,), second),
        call_ensures(broker_client::step, (second,), third),
        call_ensures(broker_client::step, (third,), last),
    ensures
        first == (broker_client::Action::CallWithReplySlot {
            endpoint: 1,
            dest: 2,
            word0: 0,
            word1: 0,
        }),
        second == (broker_client::Action::Signal { slot: 2 }),
        third == broker_client::Action::Idle,
        last == broker_client::Action::Idle,
{
}

/// The answer is as long as the request, and each of its bytes and the byte of
/// the request at its place make 255 together.
pub proof fn law_frame_answer(request: Option<&[u8]>, reply: Option<Vec<u8>>, i: int)
    requires
        call_ensures(frame_service::serve, (request,), reply),
    ensures
        request is Some <==> reply is Some,
        request matches Some(bytes) ==> reply->0@.len() == bytes@.len() && (0 <= i < bytes@.len()
            ==> reply->0@[i] + bytes@[i] == 255),
{
}

/// Likewise for complementing alone.
pub proof fn law_complement_bytes(bytes: &[u8], result: Vec<u8>, i: int)
    requires
        call_ensures(frame_service::complement, (bytes,), result),
        0 <= i < bytes@.len(),
    ensures
        result@.len() == bytes@.len(),
        result@[i] + bytes@[i] == 255,
{
}

/// The frame service's client calls on slot 1, for operation 7, with `hello
/// frame`, and has room for an answer of that length.
pub proof fn law_frame_client_call(call: frame_client::Call)
    requires
        call_ensures(frame_client::start, (), call),
    ensures
        call.endpoint == 1,
        call.op == 7,
        call.request@ == seq![
            0x68u8,
            0x65,
            0x6C,
            0x6C,
            0x6F,
            0x20,
            0x66,
            0x72,
            0x61,
            0x6D,
            0x65,
        ],
        call.reply_cap == 11,
{
    assert(call.request@ =~= seq![
        0x68u8,
        0x65,
        0x6C,
        0x6C,
        0x6F,
        0x20,
        0x66,
        0x72,
        0x61,
        0x6D,
        0x65,
    ]);
}

/// The client signals slot 2 exactly if the call worked, with a good status, and
/// the reply is as long as the request and complements it byte for byte; and
/// slot 3 otherwise.
pub proof fn law_frame_client_verdict(
    call: frame_client::Call,
    reply: Option<frame_client::Reply>,
    slot: CPtr,
)
    requires
        call_ensures(frame_client::start, (), call),
        call_ensures(frame_client::judge, (reply,), slot),
    ensures
        slot == 2 || slot == 3,
        slot == 2 <==> {
            &&& reply is Some
            &&& reply->0.status_ok
            &&& reply->0.len == call.request@.len()
            &&& reply->0.buffer@.len() == call.request@.len()
            &&& forall|i: int|
                0 <= i < call.request@.len() ==> #[trigger] reply->0.buffer@[i] + call.request@[i]
                    == 255
        },
{
    if let Some(r) = reply {
        let expected = frame_service::complemented(call.request@);
        if r.buffer@.len() == call.request@.len() && forall|i: int|
            0 <= i < call.request@.len() ==> #[trigger] r.buffer@[i] + call.request@[i] == 255 {
            assert(r.buffer@ =~= expected);
        }
    }
}

/// After receiving, whatever came of it, the broker mints; after minting it hands
/// over what it minted exactly if that worked; and otherwise it idles.
pub proof fn law_broker_goes_on(
    action: broker_service::Action,
    worked: bool,
    next: broker_service::Action,
)
    requires
        call_ensures(broker_service::step, (action, worked), next),
    ensures
        next is Mint <==> action is Recv,
        next is GrantViaReply <==> action is Mint && worked,
        next is Idle || next is Mint || next is GrantViaReply,
        next matches broker_service::Action::Mint { cnode, source, dest, rights } ==> cnode == 0
            && source == 2 && dest == 3 && rights == (Rights::Only {
            read: true,
            write: true,
            grant: true,
        }),
        next matches broker_service::Action::GrantViaReply { slot, word0, word1 } ==> slot == 3
            && word0 == 111 && word1 == 222,
{
}

/// What the keystore's client asks for next, whatever it asked for and whatever
/// came of it.
pub proof fn law_keystore_client_goes_on(
    action: &keystore_client::Action,
    event: keystore_client::Event,
    next: keystore_client::Action,
)
    requires
        call_ensures(keystore_client::step, (action, event), next),
    ensures
        ({
            let secret = keystore_client::plaintext_bytes();
            let data = keystore_client::aad_bytes();
            let broken = next@ == (keystore_client::ActionView::Finished { outcome: None });
            let mismatch = next@ == (keystore_client::ActionView::Finished {
                outcome: Some(false),
            });
            match action@ {
                keystore_client::ActionView::Connect { .. } => next@ == (
                keystore_client::ActionView::EncodeEncrypt {
                    nonce_byte: 6,
                    aad: data,
                    plaintext: secret,
                    cap: 128,
                }),
                keystore_client::ActionView::EncodeEncrypt { .. } => match event@ {
                    keystore_client::EventView::Encoded { request: Some(request) } => next@ == (
                    keystore_client::ActionView::Encrypt { endpoint: 2, request, reply_cap: 128 }),
                    _ => broken,
                },
                keystore_client::ActionView::Encrypt { .. } => match event@ {
                    keystore_client::EventView::Answered { reply: Some((true, reply)) } => next@
                        == (keystore_client::ActionView::DecodeCiphertext { reply }),
                    keystore_client::EventView::Answered { reply: Some((false, _)) } => mismatch,
                    _ => broken,
                },
                keystore_client::ActionView::DecodeCiphertext { .. } => match event@ {
                    keystore_client::EventView::Encrypted { decoded: Some((tag, ciphertext)) } => {
                        &&& ciphertext == secret ==> mismatch
                        &&& ciphertext != secret ==> next@ == (
                        keystore_client::ActionView::EncodeDecrypt {
                            nonce_byte: 6,
                            aad: data,
                            tag,
                            ciphertext,
                            cap: 128,
                        })
                    },
                    _ => broken,
                },
                keystore_client::ActionView::EncodeDecrypt { .. } => match event@ {
                    keystore_client::EventView::Encoded { request: Some(request) } => next@ == (
                    keystore_client::ActionView::Decrypt { endpoint: 2, request, reply_cap: 128 }),
                    _ => broken,
                },
                keystore_client::ActionView::Decrypt { .. } => match event@ {
                    keystore_client::EventView::Answered { reply: Some((true, reply)) } => next@
                        == (keystore_client::ActionView::DecodePlaintext { reply }),
                    keystore_client::EventView::Answered { reply: Some((false, _)) } => mismatch,
                    _ => broken,
                },
                keystore_client::ActionView::DecodePlaintext { .. } => match event@ {
                    keystore_client::EventView::Decrypted { bytes } => next@ == (
                    keystore_client::ActionView::Finished { outcome: Some(bytes == secret) }),
                    _ => broken,
                },
                keystore_client::ActionView::Finished { outcome } => next@ == (
                keystore_client::ActionView::Signal {
                    slot: if outcome == Some(true) {
                        3
                    } else {
                        4
                    },
                }),
                _ => next@ is Idle,
            }
        }),
{
}

/// What the store's client asks for next, whatever it asked for and whatever
/// came of it.
pub proof fn law_store_client_goes_on(
    action: &store_client::Action,
    event: store_client::Event,
    next: store_client::Action,
)
    requires
        call_ensures(store_client::step, (action, event), next),
    ensures
        ({
            let content = store_client::content_bytes();
            let broken = next@ == (store_client::ActionView::Finished { outcome: None });
            match action@ {
                store_client::ActionView::Connect { .. } => next@ == (
                store_client::ActionView::Write { endpoint: 2, content, reply_cap: 16 }),
                store_client::ActionView::Write { .. } => match event@ {
                    store_client::EventView::Answered { reply: Some((true, _)) } => next@ == (
                    store_client::ActionView::Read { endpoint: 2, reply_cap: 128 }),
                    store_client::EventView::Answered { reply: Some((false, _)) } => next@ == (
                    store_client::ActionView::Finished { outcome: Some(false) }),
                    _ => broken,
                },
                store_client::ActionView::Read { .. } => match event@ {
                    store_client::EventView::Answered { reply: Some((good, bytes)) } => next@ == (
                    store_client::ActionView::Finished { outcome: Some(good && bytes == content) }),
                    _ => broken,
                },
                store_client::ActionView::Finished { outcome } => next@ == (
                store_client::ActionView::Signal {
                    slot: if outcome == Some(true) {
                        3
                    } else {
                        4
                    },
                }),
                _ => next@ is Idle,
            }
        }),
{
}

/// The program can be told how whatever it asked for came out, at any time from
/// its start on.
pub proof fn law_hello_can_go_on(
    arg0: u64,
    first: (hello_service::HelloService, hello_service::Action),
    state: hello_service::HelloService,
    event: hello_service::Event,
    next: (hello_service::HelloService, hello_service::Action),
    word: Option<u64>,
)
    requires
        call_ensures(hello_service::start, (arg0,), first),
        hello_service::expects(state, event),
        call_ensures(hello_service::step, (state, event), next),
    ensures
        answerable(first, word),
        answerable(next, word),
{
}

/// What the program asked for can be answered.
pub open spec fn answerable(
    at: (hello_service::HelloService, hello_service::Action),
    word: Option<u64>,
) -> bool {
    match at.1 {
        hello_service::Action::Recv { .. } => hello_service::expects(
            at.0,
            hello_service::Event::Received { word },
        ),
        hello_service::Action::Reply { .. } => hello_service::expects(
            at.0,
            hello_service::Event::Replied,
        ),
        hello_service::Action::Call { .. } => hello_service::expects(
            at.0,
            hello_service::Event::Called,
        ),
        hello_service::Action::Idle => at.0 is Idle,
    }
}

} // verus!

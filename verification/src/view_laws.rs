//! A view says what the value holds, field by field.

use crate::boot::{BootPlan, Launch};
use crate::fdt::{Token, TokenView};
use crate::launch::{plan_views, program_views, LoadPlan, ProgramSpec};
use crate::programs::{keystore_client, service, store_client};
use vstd::prelude::*;

verus! {

/// The view of a program's description has its image, its argument, its grants
/// and its memory.
pub proof fn law_view_of_a_description(spec: ProgramSpec)
    ensures
        spec@.elf == spec.elf_bytes@,
        spec@.arg0 == spec.arg0,
        spec@.grants == spec.grants@,
        spec@.self_cnode_dest == spec.self_cnode_dest,
        spec@.heap_megapages == spec.heap_megapages,
        spec@.arena == spec.arena,
{
}

/// The view of a launch has its resources, the views of its programs, and its
/// shared frames.
pub proof fn law_view_of_a_launch(launch: Launch)
    ensures
        launch@.resources == launch.resources@,
        launch@.programs.len() == launch.programs@.len(),
        forall|i: int|
            0 <= i < launch.programs@.len() ==> #[trigger] launch@.programs[i]
                == launch.programs@[i]@,
        launch@.shares == launch.shares@,
        program_views(launch.programs@) == launch@.programs,
{
}

/// The view of a plan has its steps and where the program then is.
pub proof fn law_view_of_a_load_plan(plan: LoadPlan)
    ensures
        plan@.ops == plan.ops@,
        plan@.program == plan.program,
{
}

/// The view of a boot plan has all its parts.
pub proof fn law_view_of_a_boot_plan(plan: BootPlan)
    ensures
        plan@.root == plan.root,
        plan@.resources == plan.resources@,
        plan@.programs.len() == plan.programs@.len(),
        forall|i: int|
            0 <= i < plan.programs@.len() ==> #[trigger] plan@.programs[i] == plan.programs@[i]@,
        plan@.shares == plan.shares@,
        plan@.ready == plan.ready@,
        plan@.first == plan.first,
        plan_views(plan.programs@) == plan@.programs,
{
}

/// The view of a token is the token, with the bytes of its name and its value.
pub proof fn law_view_of_a_token(name: &[u8], value: &[u8])
    ensures
        Token::BeginNode(name)@ == TokenView::BeginNode(name@),
        Token::EndNode@ == TokenView::EndNode,
        Token::Property(name, value)@ == TokenView::Property(name@, value@),
        Token::Nop@ == TokenView::Nop,
        Token::End@ == TokenView::End,
{
}

/// The view of what came of the keystore client's action.
pub proof fn law_view_of_a_keystore_event(good: bool, a: &[u8], b: &[u8])
    ensures
        keystore_client::Event::Returned@ == keystore_client::EventView::Returned,
        (keystore_client::Event::Encoded { request: Some(a) })@ == (
        keystore_client::EventView::Encoded { request: Some(a@) }),
        (keystore_client::Event::Encoded { request: None })@ == (
        keystore_client::EventView::Encoded { request: None }),
        (keystore_client::Event::Answered { reply: Some((good, a)) })@ == (
        keystore_client::EventView::Answered { reply: Some((good, a@)) }),
        (keystore_client::Event::Answered { reply: None })@ == (
        keystore_client::EventView::Answered { reply: None }),
        (keystore_client::Event::Encrypted { decoded: Some((a, b)) })@ == (
        keystore_client::EventView::Encrypted { decoded: Some((a@, b@)) }),
        (keystore_client::Event::Encrypted { decoded: None })@ == (
        keystore_client::EventView::Encrypted { decoded: None }),
        (keystore_client::Event::Decrypted { bytes: a })@ == (
        keystore_client::EventView::Decrypted { bytes: a@ }),
{
}

/// The view of what the keystore's client asks for.
pub proof fn law_view_of_a_keystore_action(action: keystore_client::Action)
    ensures
        match action {
            keystore_client::Action::Connect { endpoint, dest, word0, word1 } => action@ == (
            keystore_client::ActionView::Connect { endpoint, dest, word0, word1 }),
            keystore_client::Action::EncodeEncrypt { nonce_byte, aad, plaintext, cap } => action@
                == (keystore_client::ActionView::EncodeEncrypt {
                nonce_byte,
                aad: aad@,
                plaintext: plaintext@,
                cap,
            }),
            keystore_client::Action::Encrypt { endpoint, request, reply_cap } => action@ == (
            keystore_client::ActionView::Encrypt { endpoint, request: request@, reply_cap }),
            keystore_client::Action::DecodeCiphertext { reply } => action@ == (
            keystore_client::ActionView::DecodeCiphertext { reply: reply@ }),
            keystore_client::Action::EncodeDecrypt { nonce_byte, aad, tag, ciphertext, cap } =>
                action@ == (keystore_client::ActionView::EncodeDecrypt {
                nonce_byte,
                aad: aad@,
                tag: tag@,
                ciphertext: ciphertext@,
                cap,
            }),
            keystore_client::Action::Decrypt { endpoint, request, reply_cap } => action@ == (
            keystore_client::ActionView::Decrypt { endpoint, request: request@, reply_cap }),
            keystore_client::Action::DecodePlaintext { reply } => action@ == (
            keystore_client::ActionView::DecodePlaintext { reply: reply@ }),
            keystore_client::Action::Finished { outcome } => action@ == (
            keystore_client::ActionView::Finished { outcome }),
            keystore_client::Action::Signal { slot } => action@ == (
            keystore_client::ActionView::Signal { slot }),
            keystore_client::Action::Idle => action@ == keystore_client::ActionView::Idle,
        },
{
}

/// The view of what came of the store client's action.
pub proof fn law_view_of_a_store_event(good: bool, a: &[u8])
    ensures
        store_client::Event::Returned@ == store_client::EventView::Returned,
        (store_client::Event::Answered { reply: Some((good, a)) })@ == (
        store_client::EventView::Answered { reply: Some((good, a@)) }),
        (store_client::Event::Answered { reply: None })@ == (store_client::EventView::Answered {
            reply: None,
        }),
{
}

/// The view of what the store's client asks for.
pub proof fn law_view_of_a_store_action(action: store_client::Action)
    ensures
        match action {
            store_client::Action::Connect { endpoint, dest, word0, word1 } => action@ == (
            store_client::ActionView::Connect { endpoint, dest, word0, word1 }),
            store_client::Action::Write { endpoint, content, reply_cap } => action@ == (
            store_client::ActionView::Write { endpoint, content: content@, reply_cap }),
            store_client::Action::Read { endpoint, reply_cap } => action@ == (
            store_client::ActionView::Read { endpoint, reply_cap }),
            store_client::Action::Finished { outcome } => action@ == (
            store_client::ActionView::Finished { outcome }),
            store_client::Action::Signal { slot } => action@ == (
            store_client::ActionView::Signal { slot }),
            store_client::Action::Idle => action@ == store_client::ActionView::Idle,
        },
{
}

/// The view of what came of a service's action.
pub proof fn law_view_of_a_service_event(
    badge: Option<u64>,
    worked: bool,
    op: u16,
    status: u16,
    bytes: &[u8],
)
    ensures
        (service::Event::Received { badge })@ == (service::EventView::Received { badge }),
        (service::Event::Outcome { worked })@ == (service::EventView::Outcome { worked }),
        (service::Event::Read { request: Some((op, bytes)) })@ == (service::EventView::Read {
            request: Some((op, bytes@)),
        }),
        (service::Event::Read { request: None })@ == (service::EventView::Read { request: None }),
        (service::Event::Handled { status, reply: bytes })@ == (service::EventView::Handled {
            status,
            reply: bytes@,
        }),
{
}

/// The view of what a service asks for.
pub proof fn law_view_of_a_service_action(action: service::Action)
    ensures
        match action {
            service::Action::Connect { endpoint, dest, word0, word1 } => action@ == (
            service::ActionView::Connect { endpoint, dest, word0, word1 }),
            service::Action::AwaitClient { endpoint } => action@ == (
            service::ActionView::AwaitClient { endpoint }),
            service::Action::MintAccess { cnode, source, dest, access } => action@ == (
            service::ActionView::MintAccess { cnode, source, dest, access }),
            service::Action::DeliverAccess { slot, word0, word1 } => action@ == (
            service::ActionView::DeliverAccess { slot, word0, word1 }),
            service::Action::AwaitRequest { endpoint } => action@ == (
            service::ActionView::AwaitRequest { endpoint }),
            service::Action::ReadRequest { badge, cap } => action@ == (
            service::ActionView::ReadRequest { badge, cap }),
            service::Action::Handle { badge, op, request, cap } => action@ == (
            service::ActionView::Handle { badge, op, request: request@, cap }),
            service::Action::Answer { status, reply } => action@ == (service::ActionView::Answer {
                status,
                reply: reply@,
            }),
            service::Action::Idle => action@ == service::ActionView::Idle,
        },
{
}

} // verus!

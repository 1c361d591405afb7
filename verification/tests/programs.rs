use lantern_boot::launch::Rights;
use lantern_boot::programs::hello_service::{Action as HelloAction, Event as HelloEvent};
use lantern_boot::programs::keystore_client::{Action as KsAction, Event as KsEvent};
use lantern_boot::programs::service::{
    Access, Action as ServiceAction, Event as ServiceEvent, Service,
};
use lantern_boot::programs::store_client::{Action as StoreAction, Event as StoreEvent};
use lantern_boot::programs::{
    broker_client, broker_service, frame_client, frame_service, hello_service, keystore_client,
    service, store_client,
};

#[test]
fn the_hello_server_doubles_every_request() {
    let (mut state, mut action) = hello_service::start(0);
    let mut served = 0u64;
    loop {
        match action {
            HelloAction::Recv { endpoint } => {
                assert_eq!(endpoint, 1);
                let event = HelloEvent::Received { word: Some(served) };
                (state, action) = hello_service::step(state, event);
            }
            HelloAction::Reply { word0, word1, word2 } => {
                assert_eq!((word0, word1, word2), (2 * served, 0, 0));
                served += 1;
                (state, action) = hello_service::step(state, HelloEvent::Replied);
            }
            HelloAction::Call { .. } => unreachable!(),
            HelloAction::Idle => break,
        }
    }
    assert_eq!(served, 2009);
    assert_eq!(state, hello_service::HelloService::Idle);
}

#[test]
fn the_hello_client_calls_the_right_number_of_times() {
    for arg0 in [1, 7] {
        let (mut state, mut action) = hello_service::start(arg0);
        let mut calls = 0;
        while let HelloAction::Call { endpoint, word0, word1, word2 } = action {
            assert_eq!((endpoint, word0, word1, word2), (1, 21, 0, 0));
            calls += 1;
            (state, action) = hello_service::step(state, HelloEvent::Called);
        }
        assert_eq!(action, HelloAction::Idle);
        assert_eq!(calls, 2000 + 1 + 8);
    }
}

#[test]
fn the_hello_answer() {
    assert_eq!(hello_service::answer(Some(21)), 42);
    assert_eq!(hello_service::answer(Some(0)), 0);
    assert_eq!(hello_service::answer(None), 0);
    assert_eq!(hello_service::answer(Some(u64::MAX)), u64::MAX - 1);
    assert_eq!(hello_service::answer(Some(1 << 63)), 0);
}

#[test]
fn the_broker_grants_what_it_minted() {
    let recv = broker_service::start();
    assert_eq!(recv, broker_service::Action::Recv { endpoint: 1 });
    let mint = broker_service::step(recv, false);
    assert_eq!(
        mint,
        broker_service::Action::Mint {
            cnode: 0,
            source: 2,
            dest: 3,
            rights: Rights::Only { read: true, write: true, grant: true },
        }
    );
    assert_eq!(broker_service::step(mint, false), broker_service::Action::Idle);
    let grant = broker_service::step(mint, true);
    assert_eq!(
        grant,
        broker_service::Action::GrantViaReply { slot: 3, word0: 111, word1: 222 }
    );
    assert_eq!(broker_service::step(grant, true), broker_service::Action::Idle);
    assert_eq!(
        broker_service::step(broker_service::Action::Idle, true),
        broker_service::Action::Idle
    );
}

#[test]
fn the_broker_client_signals_the_slot_it_named() {
    let call = broker_client::start();
    assert_eq!(
        call,
        broker_client::Action::CallWithReplySlot { endpoint: 1, dest: 2, word0: 0, word1: 0 }
    );
    let signal = broker_client::step(call);
    assert_eq!(signal, broker_client::Action::Signal { slot: 2 });
    assert_eq!(broker_client::step(signal), broker_client::Action::Idle);
}

#[test]
fn the_frame_service_complements() {
    assert_eq!(frame_service::complement(&[0x00, 0xFF, 0x0F, 0xA5]), vec![0xFF, 0x00, 0xF0, 0x5A]);
    assert_eq!(frame_service::serve(Some(&[1, 2])), Some(vec![0xFE, 0xFD]));
    assert_eq!(frame_service::serve(Some(&[])), Some(vec![]));
    assert_eq!(frame_service::serve(None), None);
    let twice = frame_service::complement(&frame_service::complement(b"hello frame"));
    assert_eq!(twice, b"hello frame");
}

fn frame_reply(status_ok: bool, len: usize, buffer: &[u8]) -> Option<frame_client::Reply<'_>> {
    Some(frame_client::Reply { status_ok, len, buffer })
}

#[test]
fn the_frame_client_judges_by_the_right_answer() {
    let call = frame_client::start();
    assert_eq!((call.endpoint, call.op, call.reply_cap), (1, 7, 11));
    assert_eq!(&call.request, b"hello frame");
    assert_eq!(frame_client::request(), call.request);
    let right = frame_service::complement(&frame_client::request());
    assert_eq!(frame_client::judge(frame_reply(true, 11, &right)), 2);
    assert_eq!(frame_client::judge(frame_reply(false, 11, &right)), 3);
    assert_eq!(frame_client::judge(frame_reply(true, 10, &right)), 3);
    assert_eq!(frame_client::judge(frame_reply(true, 11, b"hello frame")), 3);
    assert_eq!(frame_client::judge(None), 3);
}

const OK: ServiceEvent<'static> = ServiceEvent::Outcome { worked: true };
const FAILED: ServiceEvent<'static> = ServiceEvent::Outcome { worked: false };

fn received(badge: u64) -> ServiceEvent<'static> {
    ServiceEvent::Received { badge: Some(badge) }
}

fn read(op: u16, bytes: &[u8]) -> ServiceEvent<'_> {
    ServiceEvent::Read { request: Some((op, bytes)) }
}

fn run(service: &Service, events: &[ServiceEvent]) -> Vec<ServiceAction> {
    let mut actions = vec![service.start()];
    for event in events {
        let next = service.step(actions.last().unwrap(), *event);
        actions.push(next);
    }
    actions
}

fn await_request(endpoint: u64) -> ServiceAction {
    ServiceAction::AwaitRequest { endpoint }
}

#[test]
fn the_keystore_lets_its_client_in_and_serves_it() {
    let lost = ServiceEvent::Received { badge: None };
    let unread = ServiceEvent::Read { request: None };
    let handled = ServiceEvent::Handled { status: 5, reply: b"sealed" };
    let actions = run(
        &service::keystore(),
        &[
            received(0),
            OK,
            OK,
            lost,
            received(9),
            unread,
            received(9),
            read(1, b"secret"),
            handled,
            FAILED,
        ],
    );
    assert_eq!(
        actions,
        vec![
            ServiceAction::AwaitClient { endpoint: 1 },
            ServiceAction::MintAccess {
                cnode: 0,
                source: 1,
                dest: 3,
                access: Access::EncryptDecrypt,
            },
            ServiceAction::DeliverAccess { slot: 3, word0: 0, word1: 0 },
            await_request(1),
            await_request(1),
            ServiceAction::ReadRequest { badge: 9, cap: 256 },
            await_request(1),
            ServiceAction::ReadRequest { badge: 9, cap: 256 },
            ServiceAction::Handle { badge: 9, op: 1, request: b"secret".to_vec(), cap: 256 },
            ServiceAction::Answer { status: 5, reply: b"sealed".to_vec() },
            await_request(1),
        ]
    );
}

#[test]
fn the_store_first_connects_to_the_keystore() {
    let events = [FAILED, received(0), OK, OK, received(5), read(2, &[])];
    let actions = run(&service::store(), &events);
    assert_eq!(
        actions,
        vec![
            ServiceAction::Connect { endpoint: 1, dest: 2, word0: 0, word1: 0 },
            ServiceAction::AwaitClient { endpoint: 3 },
            ServiceAction::MintAccess { cnode: 0, source: 3, dest: 4, access: Access::ReadWrite },
            ServiceAction::DeliverAccess { slot: 4, word0: 0, word1: 0 },
            await_request(3),
            ServiceAction::ReadRequest { badge: 5, cap: 256 },
            ServiceAction::Handle { badge: 5, op: 2, request: vec![], cap: 256 },
        ]
    );
}

#[test]
fn a_service_that_cannot_let_its_client_in_idles() {
    let keystore = service::keystore();
    let idle = Some(&ServiceAction::Idle);
    assert_eq!(run(&keystore, &[received(0), FAILED, OK]).last(), idle);
    assert_eq!(run(&keystore, &[received(0), OK, FAILED, received(1)]).last(), idle);
    assert_eq!(run(&service::store(), &[FAILED, received(0), FAILED]).last(), idle);
}

fn keystore_run(events: &[KsEvent]) -> Vec<KsAction> {
    let mut actions = vec![keystore_client::start()];
    for event in events {
        let next = keystore_client::step(actions.last().unwrap(), *event);
        actions.push(next);
    }
    actions
}

fn encoded(request: &[u8]) -> KsEvent<'_> {
    KsEvent::Encoded { request: Some(request) }
}

fn answered(ok: bool, reply: &[u8]) -> KsEvent<'_> {
    KsEvent::Answered { reply: Some((ok, reply)) }
}

fn encrypted<'a>(tag: &'a [u8], ciphertext: &'a [u8]) -> KsEvent<'a> {
    KsEvent::Encrypted { decoded: Some((tag, ciphertext)) }
}

fn decrypted(bytes: &[u8]) -> KsEvent<'_> {
    KsEvent::Decrypted { bytes }
}

const RETURNED: KsEvent<'static> = KsEvent::Returned;
const TOO_LONG: KsEvent<'static> = KsEvent::Encoded { request: None };
const BROKEN: KsEvent<'static> = KsEvent::Answered { reply: None };
const MALFORMED: KsEvent<'static> = KsEvent::Encrypted { decoded: None };

/// Events up to where the plaintext is to be decoded.
fn most_of_a_round_trip() -> [KsEvent<'static>; 6] {
    [
        RETURNED,
        encoded(b"encrypt this"),
        answered(true, b"sealed"),
        encrypted(b"tag", b"??"),
        encoded(b"decrypt this"),
        answered(true, b"opened"),
    ]
}

#[test]
fn the_keystore_client_succeeds_when_its_secret_comes_back() {
    let secret = b"a confined keystore secret";
    assert_eq!(&keystore_client::plaintext(), secret);
    assert_eq!(&keystore_client::aad(), b"keystore-demo");
    assert_eq!(keystore_client::NONCE_BYTE, 6);
    let mut events = most_of_a_round_trip().to_vec();
    events.extend([decrypted(secret), RETURNED, RETURNED, RETURNED]);
    assert_eq!(
        keystore_run(&events),
        vec![
            KsAction::Connect { endpoint: 1, dest: 2, word0: 0, word1: 0 },
            KsAction::EncodeEncrypt {
                nonce_byte: 6,
                aad: b"keystore-demo".to_vec(),
                plaintext: secret.to_vec(),
                cap: 128,
            },
            KsAction::Encrypt { endpoint: 2, request: b"encrypt this".to_vec(), reply_cap: 128 },
            KsAction::DecodeCiphertext { reply: b"sealed".to_vec() },
            KsAction::EncodeDecrypt {
                nonce_byte: 6,
                aad: b"keystore-demo".to_vec(),
                tag: b"tag".to_vec(),
                ciphertext: b"??".to_vec(),
                cap: 128,
            },
            KsAction::Decrypt { endpoint: 2, request: b"decrypt this".to_vec(), reply_cap: 128 },
            KsAction::DecodePlaintext { reply: b"opened".to_vec() },
            KsAction::Finished { outcome: Some(true) },
            KsAction::Signal { slot: 3 },
            KsAction::Idle,
            KsAction::Idle,
        ]
    );
}

/// What the client signals after `events` that do not give its secret back,
/// and with what outcome.
fn keystore_failure(events: &[KsEvent]) -> Option<bool> {
    let mut events = events.to_vec();
    events.extend([RETURNED, RETURNED]);
    let mut actions = keystore_run(&events);
    assert_eq!(actions.pop(), Some(KsAction::Idle));
    assert_eq!(actions.pop(), Some(KsAction::Signal { slot: 4 }));
    match actions.pop() {
        Some(KsAction::Finished { outcome }) => outcome,
        _ => panic!("the round trip is not over"),
    }
}

#[test]
fn a_round_trip_that_breaks_off_has_no_outcome() {
    let most = most_of_a_round_trip();
    let after = |n: usize, event| {
        let mut events = most[..n].to_vec();
        events.push(event);
        keystore_failure(&events)
    };
    assert_eq!(after(1, TOO_LONG), None);
    assert_eq!(after(2, BROKEN), None);
    assert_eq!(after(3, MALFORMED), None);
    assert_eq!(after(4, TOO_LONG), None);
    assert_eq!(after(5, BROKEN), None);
    // Nothing that was not asked for counts.
    assert_eq!(after(2, RETURNED), None);
}

#[test]
fn a_clean_round_trip_can_be_a_mismatch() {
    let most = most_of_a_round_trip();
    let secret = keystore_client::plaintext();
    let after = |n: usize, event| {
        let mut events = most[..n].to_vec();
        events.push(event);
        keystore_failure(&events)
    };
    assert_eq!(after(2, answered(false, b"sealed")), Some(false));
    // Encryption must have changed the bytes.
    assert_eq!(after(3, encrypted(b"tag", &secret)), Some(false));
    assert_eq!(after(5, answered(false, b"opened")), Some(false));
    assert_eq!(after(6, decrypted(b"another secret")), Some(false));
    assert_eq!(after(6, decrypted(&[])), Some(false));
}

#[test]
fn what_is_decrypted_is_what_came_back() {
    let start = [RETURNED, encoded(b"encrypt this"), answered(true, b"sealed")];
    for (tag, ciphertext) in [(b"t1", b"c1"), (b"t1", b"c2"), (b"t2", b"c1")] {
        let mut events = start.to_vec();
        events.push(encrypted(tag, ciphertext));
        assert_eq!(
            keystore_run(&events).last(),
            Some(&KsAction::EncodeDecrypt {
                nonce_byte: 6,
                aad: b"keystore-demo".to_vec(),
                tag: tag.to_vec(),
                ciphertext: ciphertext.to_vec(),
                cap: 128,
            })
        );
    }
}

fn store_run(events: &[StoreEvent]) -> Vec<StoreAction> {
    let mut actions = vec![store_client::start()];
    for event in events {
        let next = store_client::step(actions.last().unwrap(), *event);
        actions.push(next);
    }
    actions
}

fn stored(ok: bool, bytes: &[u8]) -> StoreEvent<'_> {
    StoreEvent::Answered { reply: Some((ok, bytes)) }
}

#[test]
fn the_store_client_succeeds_when_it_reads_what_it_wrote() {
    let content = store_client::content();
    assert_eq!(&content[..], &b"a confined store secret, encrypted by a confined keystore"[..]);
    let returned = StoreEvent::Returned;
    let events = [returned, stored(true, &[]), stored(true, &content), returned, returned];
    assert_eq!(
        store_run(&events),
        vec![
            StoreAction::Connect { endpoint: 1, dest: 2, word0: 0, word1: 0 },
            StoreAction::Write { endpoint: 2, content: content.to_vec(), reply_cap: 16 },
            StoreAction::Read { endpoint: 2, reply_cap: 128 },
            StoreAction::Finished { outcome: Some(true) },
            StoreAction::Signal { slot: 3 },
            StoreAction::Idle,
        ]
    );
}

#[test]
fn the_store_client_tells_a_mismatch_from_a_broken_channel() {
    let content = store_client::content();
    let returned = StoreEvent::Returned;
    let broken = StoreEvent::Answered { reply: None };
    let outcomes = [
        (vec![returned, stored(false, &[])], Some(false)),
        (vec![returned, broken], None),
        (vec![returned, stored(true, &[]), stored(true, &content[1..])], Some(false)),
        (vec![returned, stored(true, &[]), stored(false, &content)], Some(false)),
        (vec![returned, stored(true, &[]), broken], None),
    ];
    for (events, outcome) in outcomes {
        let last = store_run(&events).pop().unwrap();
        assert_eq!(last, StoreAction::Finished { outcome });
        let signal = store_client::step(&last, returned);
        assert_eq!(signal, StoreAction::Signal { slot: 4 });
        assert_eq!(store_client::step(&signal, returned), StoreAction::Idle);
    }
}

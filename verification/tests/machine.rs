use lantern_boot::demo::{client_thread, run, server_thread, spawn, ThreadCall};
use lantern_boot::launch::Rights;
use lantern_boot::megapage::MEGAPAGE_SIZE;
use lantern_boot::paging::{build_table, kernel_mappings, Mapping, PteFlags};
use lantern_boot::pmm::{
    general_memory, memory_end, memory_source, MemorySource, GENERAL_MEMORY_BASE,
    GENERAL_MEMORY_END,
};
use lantern_boot::trap::Syscall;
use lantern_boot::uart::{PortAction, Uart};

fn identity(base: u64, execute: bool, user: bool) -> Mapping {
    Mapping { vaddr: base, paddr: base, flags: PteFlags { read: true, write: true, execute, user } }
}

#[test]
fn memory_ends_where_the_device_tree_says() {
    let source = memory_source(Some((0x8000_0000, 0x1000_0000)));
    assert_eq!(source, MemorySource::DeviceTree { base: 0x8000_0000, end: 0x9000_0000 });
    assert_eq!(memory_end(&source), 0x9000_0000);
    assert_eq!(memory_end(&memory_source(Some((u64::MAX, 2)))), u64::MAX);
    assert_eq!(memory_end(&memory_source(Some((u64::MAX - 2, 2)))), u64::MAX);
}

#[test]
fn without_a_device_tree_memory_ends_at_the_default() {
    let source = memory_source(None);
    assert_eq!(source, MemorySource::Fallback { end: GENERAL_MEMORY_END });
    assert_eq!(memory_end(&source), 0x8800_0000);
}

#[test]
fn general_memory_is_whole_megapages() {
    assert_eq!(general_memory(0x8800_0000), 0x07A0_0000);
    assert_eq!(general_memory(0x8800_0000 + 1), 0x07A0_0000);
    assert_eq!(general_memory(0x8800_0000 - 1), 0x0780_0000);
    assert_eq!(general_memory(0), MEGAPAGE_SIZE);
    assert_eq!(general_memory(GENERAL_MEMORY_BASE + MEGAPAGE_SIZE), MEGAPAGE_SIZE);
    assert_eq!(general_memory(u64::MAX), u64::MAX - MEGAPAGE_SIZE + 1 - GENERAL_MEMORY_BASE);
}

#[test]
fn a_thread_table_has_four_megapages() {
    assert_eq!(
        build_table(0x8040_0000, 0x8060_0000),
        [
            identity(0x8020_0000, true, false),
            identity(0x8040_0000, true, true),
            identity(0x1000_0000, false, false),
            identity(0x8060_0000, false, true),
        ]
    );
    assert_eq!(
        kernel_mappings(),
        [identity(0x8020_0000, true, false), identity(0x1000_0000, false, false)]
    );
}

#[test]
fn two_threads_share_all_but_their_stacks() {
    let plan = run(0x8040_0010, 0x8040_0100, 0x8040_0000, 0x8060_0000, 0x8080_0000);
    assert_eq!((plan.rights, plan.badge), (Rights::All, 42));
    assert_eq!((plan.client.entry, plan.client.stack_top), (0x8040_0010, 0x8080_0000));
    assert_eq!((plan.server.entry, plan.server.stack_top), (0x8040_0100, 0x80A0_0000));
    assert_eq!((plan.client.endpoint, plan.client.arg0), (1, 0));
    assert_eq!(plan.client.table[..3], plan.server.table[..3]);
    assert!(plan.client.table.iter().all(|m| m.paddr != 0x8080_0000));
    assert!(plan.server.table.iter().all(|m| m.paddr != 0x8060_0000));
    let alone = spawn(0x8040_0010, 0x8040_0000, 0x8060_0000);
    assert_eq!(alone.table, plan.client.table);
}

#[test]
fn the_server_thread_doubles_what_the_client_thread_sends() {
    let call = |syscall, cptr, mr1| ThreadCall { syscall, cptr, mr1, mr2: 0, mr3: 0 };
    assert_eq!(client_thread(), call(Syscall::Call, 1, 21));
    assert_eq!(server_thread(None), call(Syscall::Recv, 1, 0));
    assert_eq!(server_thread(Some(21)), call(Syscall::Reply, 0, 42));
}

#[test]
fn bytes_go_out_when_the_port_is_ready() {
    let text = b"ok\n";
    let mut uart = Uart::new(text);
    let mut written = vec![];
    for status in [0x00, 0x20, 0x40, 0x60, 0x1F, 0xFF] {
        match uart.putc(status) {
            PortAction::Write { byte } => written.push(byte),
            PortAction::Poll => assert_eq!(status & 0x20, 0),
            PortAction::Done => unreachable!(),
        }
    }
    assert_eq!(written, text);
    assert_eq!(uart.putc(0x20), PortAction::Done);
    assert_eq!(Uart::new(b"").putc(0), PortAction::Done);
}

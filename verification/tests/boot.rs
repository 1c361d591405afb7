use lantern_boot::boot::{BootPlan, RootSeed};
use lantern_boot::elf::ElfError;
use lantern_boot::image::LoadError;
use lantern_boot::launch::{ObjectType, Op, Rights};
use lantern_boot::trap::{verdict, Syscall, Verdict};
use lantern_boot::{
    broker_demo, frame_demo, keystore_demo, loader, store_demo, wasm_probe_demo,
};

const MEM_END: u64 = 0x8800_0000;

/// An image of one small segment, told apart by its entry point.
fn elf(entry: u64) -> Vec<u8> {
    let mut b = vec![0u8; 64];
    b[0..4].copy_from_slice(&[0x7F, b'E', b'L', b'F']);
    b[4] = 2;
    b[5] = 1;
    b[0x10..0x12].copy_from_slice(&2u16.to_le_bytes());
    b[0x12..0x14].copy_from_slice(&0xF3u16.to_le_bytes());
    b[0x18..0x20].copy_from_slice(&entry.to_le_bytes());
    b[0x20..0x28].copy_from_slice(&64u64.to_le_bytes());
    b[0x36..0x38].copy_from_slice(&56u16.to_le_bytes());
    b[0x38..0x3A].copy_from_slice(&1u16.to_le_bytes());
    let mut p = [0u8; 56];
    p[0x00..0x04].copy_from_slice(&1u32.to_le_bytes());
    p[0x04..0x08].copy_from_slice(&5u32.to_le_bytes());
    p[0x10..0x18].copy_from_slice(&0x8400_0000u64.to_le_bytes());
    p[0x20..0x28].copy_from_slice(&64u64.to_le_bytes());
    p[0x28..0x30].copy_from_slice(&64u64.to_le_bytes());
    b.extend_from_slice(&p);
    b
}

/// What program `i` is granted, as pairs of a source and a destination slot.
fn grants(plan: &BootPlan, i: usize) -> Vec<(u64, u64)> {
    plan.programs[i]
        .ops
        .iter()
        .filter_map(|op| match op {
            Op::CopyCross { source_slot, dest_slot, .. } => Some((*source_slot, *dest_slot)),
            _ => None,
        })
        .collect()
}

/// The entry point and the argument of program `i`.
fn starts(plan: &BootPlan, i: usize) -> (u64, u64) {
    plan.programs[i]
        .ops
        .iter()
        .find_map(|op| match op {
            Op::SetContext { entry, arg0, .. } => Some((*entry, *arg0)),
            _ => None,
        })
        .unwrap()
}

fn made(object: ObjectType, dest: u64) -> Op {
    Op::Retype { object, dest }
}

fn shared(frame: u64, a: u64, vaddr_a: u64, b: u64, vaddr_b: u64) -> Vec<Op> {
    vec![
        made(ObjectType::FrameSmall, frame),
        Op::MapFrame { frame, vspace: a, vaddr: vaddr_a, perms: 11 },
        Op::MapFrame { frame, vspace: b, vaddr: vaddr_b, perms: 11 },
    ]
}

#[test]
fn hello_boots_a_server_and_a_client() {
    let image = elf(0x8400_0000);
    let plan = loader::run(MEM_END, &image).unwrap();
    assert_eq!(
        plan.root,
        RootSeed {
            self_cnode: 0,
            untyped: 1,
            untyped_rights: Rights::All,
            budget: 1000,
            memory_base: 0x8060_0000,
            memory_size: 0x07A0_0000,
        }
    );
    assert_eq!(
        plan.resources,
        vec![
            made(ObjectType::Endpoint, 2),
            Op::Mint { src: 2, dest: 3, rights: Rights::All, badge: 42 },
        ]
    );
    assert_eq!(plan.programs.len(), 2);
    assert_eq!(starts(&plan, 0), (0x8400_0000, 0));
    assert_eq!(starts(&plan, 1), (0x8400_0000, 1));
    assert_eq!(grants(&plan, 0), vec![(3, 1)]);
    assert_eq!(grants(&plan, 1), vec![(3, 1)]);
    assert!(plan.shares.is_empty());
    // Slots 4 to 9 are the server's, 10 to 15 the client's.
    assert_eq!(plan.programs[0].program.vspace_cptr, 4);
    assert_eq!(plan.programs[1].program.vspace_cptr, 10);
    assert_eq!(plan.ready, vec![9]);
    assert_eq!(plan.first, 15);
}

#[test]
fn the_broker_gets_the_resource_and_its_own_space() {
    let plan = broker_demo::run(MEM_END, &elf(1), &elf(2)).unwrap();
    assert_eq!(
        plan.resources,
        vec![made(ObjectType::Endpoint, 2), made(ObjectType::Notification, 3)]
    );
    // The broker's own space is at slot 7.
    assert_eq!(grants(&plan, 0), vec![(2, 1), (3, 2), (7, 0)]);
    assert_eq!(grants(&plan, 1), vec![(2, 1)]);
    assert_eq!(starts(&plan, 0), (1, 0));
    assert_eq!(starts(&plan, 1), (2, 1));
    assert_eq!(plan.ready, vec![9]);
    assert_eq!(plan.first, 15);
    assert!(plan.shares.is_empty());
}

#[test]
fn the_frame_demo_shares_a_frame() {
    let plan = frame_demo::run(MEM_END, &elf(1), &elf(2)).unwrap();
    assert_eq!(
        plan.resources,
        vec![
            made(ObjectType::Endpoint, 2),
            made(ObjectType::Notification, 3),
            made(ObjectType::Notification, 4),
        ]
    );
    assert_eq!(grants(&plan, 0), vec![(2, 1)]);
    assert_eq!(grants(&plan, 1), vec![(2, 1), (3, 2), (4, 3)]);
    assert_eq!(plan.shares, shared(17, 5, 0x9000_0000, 11, 0x9000_0000));
    assert_eq!(plan.ready, vec![10]);
    assert_eq!(plan.first, 16);
}

#[test]
fn the_keystore_can_mint_in_its_own_space() {
    let plan = keystore_demo::run(MEM_END, &elf(1), &elf(2)).unwrap();
    assert_eq!(
        plan.resources,
        vec![
            made(ObjectType::Endpoint, 2),
            made(ObjectType::Notification, 3),
            made(ObjectType::Notification, 4),
        ]
    );
    assert_eq!(grants(&plan, 0), vec![(2, 1), (8, 0)]);
    assert_eq!(grants(&plan, 1), vec![(2, 1), (3, 3), (4, 4)]);
    assert_eq!(starts(&plan, 0), (1, 0));
    assert_eq!(starts(&plan, 1), (2, 1));
    assert_eq!(plan.shares, shared(17, 5, 0x9000_0000, 11, 0x9000_0000));
    assert_eq!(plan.ready, vec![10]);
    assert_eq!(plan.first, 16);
}

#[test]
fn the_store_sits_between_the_keystore_and_its_client() {
    let plan = store_demo::run(MEM_END, &elf(1), &elf(2), &elf(3)).unwrap();
    assert_eq!(
        plan.resources,
        vec![
            made(ObjectType::Endpoint, 2),
            made(ObjectType::Endpoint, 3),
            made(ObjectType::Notification, 4),
            made(ObjectType::Notification, 5),
        ]
    );
    // Slots 6 to 11, 12 to 17 and 18 to 23.
    assert_eq!(grants(&plan, 0), vec![(2, 1), (9, 0)]);
    assert_eq!(grants(&plan, 1), vec![(2, 1), (3, 3), (15, 0)]);
    assert_eq!(grants(&plan, 2), vec![(3, 1), (4, 3), (5, 4)]);
    assert_eq!((starts(&plan, 0).1, starts(&plan, 1).1, starts(&plan, 2).1), (0, 1, 2));
    let mut shares = shared(24, 6, 0x9000_0000, 12, 0x9000_0000);
    shares.extend(shared(25, 12, 0x9001_0000, 18, 0x9000_0000));
    assert_eq!(plan.shares, shares);
    assert_eq!(plan.ready, vec![11, 17]);
    assert_eq!(plan.first, 23);
}

#[test]
fn the_probe_gets_a_heap_and_an_arena() {
    let plan = wasm_probe_demo::run(MEM_END, &elf(1)).unwrap();
    assert_eq!(
        plan.resources,
        vec![made(ObjectType::Notification, 2), made(ObjectType::Notification, 3)]
    );
    // Address space 4, image 5, stack 6, heap 7, space 8, arena 9 and 10.
    assert_eq!(grants(&plan, 0), vec![(2, 4), (3, 5), (4, 6), (9, 7), (10, 8)]);
    let mapped: Vec<u64> = plan.programs[0]
        .ops
        .iter()
        .filter_map(|op| match op {
            Op::MapFrame { frame, .. } => Some(*frame),
            _ => None,
        })
        .collect();
    assert_eq!(mapped, vec![5, 6, 7]);
    assert!(plan.ready.is_empty());
    assert_eq!(plan.first, 12);
}

#[test]
fn programs_have_no_frame_in_common() {
    let plan = store_demo::run(MEM_END, &elf(1), &elf(2), &elf(3)).unwrap();
    let mut seen = vec![];
    for program in &plan.programs {
        for op in &program.ops {
            if let Op::MapFrame { frame, vspace, .. } = op {
                assert_eq!(*vspace, program.program.vspace_cptr);
                assert!(!seen.contains(frame));
                seen.push(*frame);
            }
        }
    }
    assert_eq!(seen.len(), 6);
}

#[test]
fn a_boot_makes_each_slot_once() {
    let plan = store_demo::run(MEM_END, &elf(1), &elf(2), &elf(3)).unwrap();
    let mut ops = plan.resources.clone();
    for program in &plan.programs {
        ops.extend_from_slice(&program.ops);
    }
    ops.extend_from_slice(&plan.shares);
    let slots: Vec<u64> = ops
        .iter()
        .filter_map(|op| match op {
            Op::Retype { dest, .. } => Some(*dest),
            _ => None,
        })
        .collect();
    assert_eq!(slots, (2..26).collect::<Vec<u64>>());
}

#[test]
fn a_program_that_cannot_be_loaded_stops_the_boot() {
    assert_eq!(
        loader::run(MEM_END, &[]).err(),
        Some(LoadError::Header(ElfError::TooShortForHeader))
    );
    let bad = [0u8; 64];
    let bad_magic = Some(LoadError::Header(ElfError::BadMagic));
    assert_eq!(broker_demo::run(MEM_END, &elf(1), &bad).err(), bad_magic);
    assert_eq!(frame_demo::run(MEM_END, &bad, &elf(1)).err(), bad_magic);
    assert_eq!(keystore_demo::run(MEM_END, &elf(1), &bad).err(), bad_magic);
    assert_eq!(store_demo::run(MEM_END, &elf(1), &bad, &[]).err(), bad_magic);
    assert_eq!(wasm_probe_demo::run(MEM_END, &bad).err(), bad_magic);
}

#[test]
fn verdicts_are_told_apart() {
    assert_eq!(verdict(3, 3, 4), Verdict::Success);
    assert_eq!(verdict(4, 3, 4), Verdict::Failure);
    assert_eq!(verdict(5, 3, 4), Verdict::Unknown);
}

#[test]
fn the_broker_demo_narrates() {
    let say = broker_demo::narrate;
    assert_eq!(say(Syscall::Call, true), Some(broker_demo::Narration::Called));
    assert_eq!(say(Syscall::Recv, false), Some(broker_demo::Narration::Received { ok: true }));
    assert_eq!(
        say(Syscall::CNodeInvoke, true),
        Some(broker_demo::Narration::Minted { ok: false })
    );
    assert_eq!(say(Syscall::Reply, false), Some(broker_demo::Narration::Replied { ok: true }));
    assert_eq!(say(Syscall::Signal, true), Some(broker_demo::Narration::Signalled { ok: false }));
    assert_eq!(say(Syscall::Other, false), None);
}

#[test]
fn the_frame_demo_narrates() {
    let say = frame_demo::narrate;
    let signalled =
        |verdict, ok| Some(frame_demo::Narration::Signalled { verdict, ok });
    assert_eq!(say(Syscall::Call, 1, false), Some(frame_demo::Narration::Called));
    assert_eq!(say(Syscall::Recv, 1, true), Some(frame_demo::Narration::Received { ok: false }));
    assert_eq!(say(Syscall::Reply, 1, false), Some(frame_demo::Narration::Replied { ok: true }));
    assert_eq!(say(Syscall::Signal, 2, false), signalled(Verdict::Success, true));
    assert_eq!(say(Syscall::Signal, 3, true), signalled(Verdict::Failure, false));
    assert_eq!(say(Syscall::Signal, 9, false), signalled(Verdict::Unknown, true));
    assert_eq!(say(Syscall::CNodeInvoke, 2, false), None);
}

#[test]
fn the_probe_demo_narrates() {
    let say = wasm_probe_demo::narrate;
    let signalled = |verdict, ok| Some(wasm_probe_demo::Narration { verdict, ok });
    assert_eq!(say(Syscall::Signal, 4, false), signalled(Verdict::Success, true));
    assert_eq!(say(Syscall::Signal, 5, false), signalled(Verdict::Failure, true));
    assert_eq!(say(Syscall::Signal, 0, true), signalled(Verdict::Unknown, false));
    assert_eq!(say(Syscall::Call, 4, false), None);
}

#[test]
fn every_program_starts_once() {
    let plan = store_demo::run(MEM_END, &elf(1), &elf(2), &elf(3)).unwrap();
    let mut started = plan.ready.clone();
    started.push(plan.first);
    let threads: Vec<u64> = plan.programs.iter().map(|p| p.program.tcb_cptr).collect();
    assert_eq!(started, threads);
    assert_eq!(started, vec![11, 17, 23]);
}

#[test]
fn the_root_task_keeps_its_own_authority() {
    let plans = [
        loader::run(MEM_END, &elf(1)).unwrap(),
        broker_demo::run(MEM_END, &elf(1), &elf(2)).unwrap(),
        frame_demo::run(MEM_END, &elf(1), &elf(2)).unwrap(),
        keystore_demo::run(MEM_END, &elf(1), &elf(2)).unwrap(),
        store_demo::run(MEM_END, &elf(1), &elf(2), &elf(3)).unwrap(),
        wasm_probe_demo::run(MEM_END, &elf(1)).unwrap(),
    ];
    for plan in &plans {
        for i in 0..plan.programs.len() {
            assert!(grants(plan, i).iter().all(|(source, _)| *source > plan.root.untyped));
        }
    }
}

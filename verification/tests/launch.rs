use lantern_boot::elf::ElfError;
use lantern_boot::image::{LoadError, PERM_R, PERM_U, PERM_W, PERM_X};
use lantern_boot::launch::{
    configure, copy_cross, expected_kind, load, load_all, map_kernel_shared, map_shared_frame,
    mint, retype, ArenaGrant, Call, CapabilityKind, Invocation, LoadedProgram, ObjectType, Op,
    ProgramSpec, ARENA_VADDR, HEAP_VADDR, SELF_CNODE_CPTR, STACK_VADDR,
};
use lantern_boot::megapage::MEGAPAGE_SIZE;
use lantern_boot::paging::{Mapping, PteFlags, KERNEL_MEGAPAGE_BASE, UART_MEGAPAGE_BASE};

const RWU: u64 = PERM_R | PERM_W | PERM_U;

/// An image of one segment, `data` at `vaddr`.
fn elf(entry: u64, flags: u32, vaddr: u64, data: &[u8], memsz: u64) -> Vec<u8> {
    let mut b = vec![0u8; 64];
    b[0..4].copy_from_slice(&[0x7F, b'E', b'L', b'F']);
    b[4] = 2;
    b[5] = 1;
    b[0x10..0x12].copy_from_slice(&2u16.to_le_bytes());
    b[0x12..0x14].copy_from_slice(&0xF3u16.to_le_bytes());
    b[0x18..0x20].copy_from_slice(&entry.to_le_bytes());
    b[0x20..0x28].copy_from_slice(&64u64.to_le_bytes());
    b[0x36..0x38].copy_from_slice(&56u16.to_le_bytes());
    b[0x38..0x3A].copy_from_slice(&1u16.to_le_bytes());
    let mut p = [0u8; 56];
    p[0x00..0x04].copy_from_slice(&1u32.to_le_bytes());
    p[0x04..0x08].copy_from_slice(&flags.to_le_bytes());
    p[0x08..0x10].copy_from_slice(&120u64.to_le_bytes());
    p[0x10..0x18].copy_from_slice(&vaddr.to_le_bytes());
    p[0x20..0x28].copy_from_slice(&(data.len() as u64).to_le_bytes());
    p[0x28..0x30].copy_from_slice(&memsz.to_le_bytes());
    b.extend_from_slice(&p);
    b.extend_from_slice(data);
    b
}

fn small() -> Vec<u8> {
    elf(0x8400_0010, 5, 0x8400_0000, &[0xAA, 0xBB], 2)
}

fn plain<'a>(elf_bytes: &'a [u8], grants: &'a [(u64, u64)]) -> ProgramSpec<'a> {
    ProgramSpec {
        elf_bytes,
        arg0: 7,
        grants,
        self_cnode_dest: None,
        heap_megapages: 0,
        arena: None,
    }
}

fn made(object: ObjectType, dest: u64) -> Op {
    Op::Retype { object, dest }
}

fn granted(source_slot: u64, dest_cnode: u64, dest_slot: u64) -> Op {
    Op::CopyCross { source_cnode: SELF_CNODE_CPTR, source_slot, dest_cnode, dest_slot }
}

fn mapped(frame: u64, vspace: u64, vaddr: u64, perms: u64) -> Op {
    Op::MapFrame { frame, vspace, vaddr, perms }
}

fn kernel_ops(vspace: u64) -> [Op; 2] {
    let flags = |execute| PteFlags { read: true, write: true, execute, user: false };
    [
        Op::MapKernel {
            vspace,
            mapping: Mapping {
                vaddr: KERNEL_MEGAPAGE_BASE,
                paddr: KERNEL_MEGAPAGE_BASE,
                flags: flags(true),
            },
        },
        Op::MapKernel {
            vspace,
            mapping: Mapping {
                vaddr: UART_MEGAPAGE_BASE,
                paddr: UART_MEGAPAGE_BASE,
                flags: flags(false),
            },
        },
    ]
}

#[test]
fn a_plain_program_is_loaded_step_by_step() {
    let image = small();
    let mut next = 4;
    let plan = load(&plain(&image, &[(3, 1)]), &mut next).unwrap();
    let kernel = kernel_ops(4);
    assert_eq!(
        plan.ops,
        vec![
            made(ObjectType::VSpace, 4),
            kernel[0],
            kernel[1],
            made(ObjectType::FrameMega, 5),
            mapped(5, 4, 0x8400_0000, PERM_R | PERM_X | PERM_U),
            Op::Copy { frame: 5, within_frame: 0, file_offset: 120, len: 2 },
            made(ObjectType::FrameMega, 6),
            mapped(6, 4, STACK_VADDR, RWU),
            made(ObjectType::CNode, 7),
            granted(3, 7, 1),
            made(ObjectType::SchedContext, 8),
            made(ObjectType::Tcb, 9),
            Op::SetContext {
                tcb: 9,
                entry: 0x8400_0010,
                stack_top: STACK_VADDR + MEGAPAGE_SIZE,
                arg0: 7,
            },
            Op::Configure { tcb: 9, cnode: 7, sched: 8, vspace: 4 },
        ]
    );
    assert_eq!(plan.program, LoadedProgram { tcb_cptr: 9, vspace_cptr: 4 });
    assert_eq!(next, 10);
}

#[test]
fn everything_that_can_be_described_is_granted() {
    let image = small();
    let spec = ProgramSpec {
        elf_bytes: &image,
        arg0: 0,
        grants: &[(2, 1), (3, 5)],
        self_cnode_dest: Some(0),
        heap_megapages: 2,
        arena: Some(ArenaGrant { megapages: 2, self_vspace_dest: 6, frame_dest_base: 7 }),
    };
    let mut next = 10;
    let plan = load(&spec, &mut next).unwrap();
    // Address space 10, image 11, stack 12, heap 13 and 14, space 15, arena 16
    // and 17, budget 18, thread 19.
    assert_eq!(next, 20);
    let copies: Vec<Op> =
        plan.ops.iter().filter(|op| matches!(op, Op::CopyCross { .. })).copied().collect();
    assert_eq!(
        copies,
        vec![
            granted(2, 15, 1),
            granted(3, 15, 5),
            granted(15, 15, 0),
            granted(10, 15, 6),
            granted(16, 15, 7),
            granted(17, 15, 8),
        ]
    );
    let mappings: Vec<Op> =
        plan.ops.iter().filter(|op| matches!(op, Op::MapFrame { .. })).copied().collect();
    assert_eq!(
        mappings,
        vec![
            mapped(11, 10, 0x8400_0000, PERM_R | PERM_X | PERM_U),
            mapped(12, 10, STACK_VADDR, RWU),
            mapped(13, 10, HEAP_VADDR, RWU),
            mapped(14, 10, HEAP_VADDR + MEGAPAGE_SIZE, RWU),
        ]
    );
    let slots: Vec<u64> = plan
        .ops
        .iter()
        .filter_map(|op| match op {
            Op::Retype { dest, .. } => Some(*dest),
            _ => None,
        })
        .collect();
    assert_eq!(slots, (10..20).collect::<Vec<u64>>());
    assert_eq!(plan.program, LoadedProgram { tcb_cptr: 19, vspace_cptr: 10 });
}

#[test]
fn no_step_names_what_is_not_there_yet() {
    let image = elf(0x8400_0000, 7, 0x843F_FFFF, &[1, 2, 3], MEGAPAGE_SIZE);
    let spec = ProgramSpec {
        elf_bytes: &image,
        arg0: 0,
        grants: &[(1, 1)],
        self_cnode_dest: Some(0),
        heap_megapages: 1,
        arena: Some(ArenaGrant { megapages: 1, self_vspace_dest: 2, frame_dest_base: 3 }),
    };
    let mut slot = 2;
    let plan = load(&spec, &mut slot).unwrap();
    let mut next = 2;
    for op in &plan.ops {
        match *op {
            Op::Retype { dest, .. } => {
                assert_eq!(dest, next);
                next += 1;
            }
            Op::Mint { src, .. } => assert!(src < next),
            Op::CopyCross { source_slot, dest_cnode, .. } => {
                assert!(source_slot < next && dest_cnode < next)
            }
            Op::MapKernel { vspace, .. } => assert!(vspace < next),
            Op::MapFrame { frame, vspace, .. } => assert!(frame < next && vspace < next),
            Op::Copy { frame, .. } => assert!(frame < next),
            Op::SetContext { tcb, .. } => assert!(tcb < next),
            Op::Configure { tcb, cnode, sched, vspace } => {
                assert!(tcb < next && cnode < next && sched < next && vspace < next)
            }
        }
    }
    assert_eq!(next, slot);
}

#[test]
fn loaded_frames_hold_the_image() {
    let data: Vec<u8> = (1..=200u8).collect();
    let vaddr = 0x8400_0000 + MEGAPAGE_SIZE - 100;
    let image = elf(0x8400_0000, 7, vaddr, &data, 300);
    let mut next = 2;
    let plan = load(&plain(&image, &[]), &mut next).unwrap();
    // Frames 3 and 4 are the image's; 5 is the stack.
    let mut frames = vec![vec![0u8; MEGAPAGE_SIZE as usize]; 6];
    for op in &plan.ops {
        if let Op::Copy { frame, within_frame, file_offset, len } = *op {
            let (to, from, n) = (within_frame as usize, file_offset as usize, len as usize);
            frames[frame as usize][to..to + n].copy_from_slice(&image[from..from + n]);
        }
    }
    for (i, byte) in data.iter().enumerate() {
        let at = vaddr + i as u64 - 0x8400_0000;
        let frame = 3 + at / MEGAPAGE_SIZE;
        assert_eq!(frames[frame as usize][(at % MEGAPAGE_SIZE) as usize], *byte);
    }
    assert!(frames[4][100..].iter().all(|b| *b == 0));
    assert!(frames[5].iter().all(|b| *b == 0));
}

#[test]
fn what_cannot_be_loaded_takes_no_slot() {
    let mut next = 4;
    let not_elf = [0u8; 64];
    assert_eq!(
        load(&plain(&not_elf, &[]), &mut next).err(),
        Some(LoadError::Header(ElfError::BadMagic))
    );
    let mut odd = small();
    odd[64] = 2;
    assert_eq!(
        load(&plain(&odd, &[]), &mut next).err(),
        Some(LoadError::ProgramHeader(ElfError::UnsupportedSegmentType(2)))
    );
    let huge = elf(0, 5, 0x8400_0000, &[], 9 * MEGAPAGE_SIZE);
    assert_eq!(load(&plain(&huge, &[]), &mut next).err(), Some(LoadError::TooManyMegapages));
    let far = elf(0, 5, u64::MAX, &[], 1);
    assert_eq!(load(&plain(&far, &[]), &mut next).err(), Some(LoadError::AddressOverflow));
    assert_eq!(next, 4);
}

#[test]
fn several_programs_are_loaded_one_after_the_other() {
    let image = small();
    let specs = [plain(&image, &[]), plain(&image, &[(2, 1)]), plain(&image, &[])];
    let mut next = 3;
    let plans = load_all(&specs, &mut next).unwrap();
    let programs: Vec<LoadedProgram> = plans.iter().map(|p| p.program).collect();
    assert_eq!(
        programs,
        vec![
            LoadedProgram { tcb_cptr: 8, vspace_cptr: 3 },
            LoadedProgram { tcb_cptr: 14, vspace_cptr: 9 },
            LoadedProgram { tcb_cptr: 20, vspace_cptr: 15 },
        ]
    );
    assert_eq!(next, 21);
    // Each is loaded as it would be alone, from where the one before ended.
    let mut alone = 3;
    for (spec, plan) in specs.iter().zip(&plans) {
        let own = load(spec, &mut alone).unwrap();
        assert_eq!((own.program, own.ops), (plan.program, plan.ops.clone()));
    }
    assert_eq!(alone, next);
    assert!(programs.windows(2).all(|p| p[0].tcb_cptr < p[1].vspace_cptr));
}

#[test]
fn one_bad_program_stops_all() {
    let image = small();
    let bad = [1u8; 70];
    let mut next = 3;
    let specs = [plain(&image, &[]), plain(&bad, &[]), plain(&[], &[])];
    assert_eq!(
        load_all(&specs, &mut next).err(),
        Some(LoadError::Header(ElfError::BadMagic))
    );
    assert_eq!(next, 3);
    assert_eq!(load_all(&[], &mut next).unwrap().len(), 0);
    assert_eq!(next, 3);
}

#[test]
fn a_shared_frame_is_mapped_twice() {
    let mut next = 30;
    let ops = map_shared_frame(4, 0x9000_0000, 11, 0x9001_0000, &mut next);
    assert_eq!(
        ops,
        vec![
            made(ObjectType::FrameSmall, 30),
            mapped(30, 4, 0x9000_0000, RWU),
            mapped(30, 11, 0x9001_0000, RWU),
        ]
    );
    assert_eq!(next, 31);
}

#[test]
fn the_kernel_is_mapped_without_user_access() {
    let mut ops = vec![made(ObjectType::VSpace, 9)];
    map_kernel_shared(9, &mut ops);
    let kernel = kernel_ops(9);
    assert_eq!(ops, vec![made(ObjectType::VSpace, 9), kernel[0], kernel[1]]);
}

#[test]
fn calls_carry_their_arguments_in_registers() {
    let call = |call, target, mr1, mr2, mr3| Invocation { call, target, mr1, mr2, mr3 };
    assert_eq!(retype(1, 6, 9), call(Call::UntypedRetype, 1, 6, 9, 0));
    assert_eq!(copy_cross(0, 3, 7, 1), call(Call::CNodeCopyCross, 7, 0, 3, 1));
    assert_eq!(lantern_boot::launch::map(5, 4, 0x8400_0000, 13), call(Call::FrameMap, 5, 4, 0x8400_0000, 13));
    assert_eq!(configure(9, 7, 8, 4), call(Call::TcbConfigure, 9, 7, 8, 4));
}

#[test]
fn a_mint_packs_badge_and_rights() {
    let minted = mint(2, 3, 0x0F, 42);
    assert_eq!(
        minted,
        Invocation {
            call: Call::CNodeMint,
            target: SELF_CNODE_CPTR,
            mr1: 2,
            mr2: 3,
            mr3: 42 * 256 + 0x0F,
        }
    );
    assert_eq!(minted.mr3 >> 8, 42);
    assert_eq!(minted.mr3 & 0xFF, 0x0F);
    let largest = mint(0, 0, 0xFF, (1 << 56) - 1);
    assert_eq!(largest.mr3, u64::MAX);
    assert_eq!(mint(0, 0, 1, 1 << 56).mr3, 1);
}

#[test]
fn what_comes_of_making_an_object_is_known() {
    assert_eq!(expected_kind(ObjectType::VSpace), Some(CapabilityKind::VSpace));
    assert_eq!(expected_kind(ObjectType::FrameMega), Some(CapabilityKind::Frame));
    assert_eq!(expected_kind(ObjectType::FrameSmall), Some(CapabilityKind::Frame));
    assert_eq!(expected_kind(ObjectType::CNode), Some(CapabilityKind::CNode));
    assert_eq!(expected_kind(ObjectType::SchedContext), Some(CapabilityKind::SchedContext));
    assert_eq!(expected_kind(ObjectType::Tcb), Some(CapabilityKind::Tcb));
    assert_eq!(expected_kind(ObjectType::Endpoint), None);
    assert_eq!(expected_kind(ObjectType::Notification), None);
}

#[test]
fn the_regions_are_apart() {
    assert_eq!(STACK_VADDR, 0x8600_0000);
    assert_eq!(HEAP_VADDR, STACK_VADDR + MEGAPAGE_SIZE);
    assert_eq!(ARENA_VADDR, HEAP_VADDR + 16 * MEGAPAGE_SIZE);
}

#[test]
fn no_address_is_mapped_twice() {
    let image = elf(0x8400_0000, 7, 0x8400_0000, &[1, 2, 3], 3 * MEGAPAGE_SIZE);
    let mut spec = plain(&image, &[]);
    spec.heap_megapages = 16;
    let mut next = 2;
    let plan = load(&spec, &mut next).unwrap();
    let mut seen = vec![];
    for op in &plan.ops {
        if let Op::MapFrame { vaddr, perms, .. } = *op {
            assert_eq!(vaddr % MEGAPAGE_SIZE, 0);
            assert!(!seen.contains(&vaddr));
            assert!(perms & PERM_U != 0);
            if vaddr >= STACK_VADDR {
                assert_eq!(perms & PERM_X, 0);
                assert!(vaddr + MEGAPAGE_SIZE <= ARENA_VADDR);
            }
            seen.push(vaddr);
        }
    }
    assert_eq!(seen.len(), 3 + 1 + 16);
}

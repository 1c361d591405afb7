//! Launching confined programs from a description.
//!
//! A [`ProgramSpec`] says what a program is: its ELF image, its argument, the
//! capabilities to put into its capability space, and what memory it gets. From
//! it [`load`] works out every kernel operation that brings the program up, in
//! order, as a list of [`Op`]s; whoever holds the kernel performs them. Nothing
//! but what the description names is granted.

use crate::elf::{header_of, parse_header, ElfHeader};
use crate::image::{
    chunks_of, pages_of, plan_chunks, plan_pages, Chunk, LoadError, Page, MAX_PROGRAM_MEGAPAGES,
    PERM_R, PERM_U, PERM_W,
};
use crate::image_laws::{chunk_ok, law_chunks_stay_in_bounds, law_pages_are_distinct};
use crate::megapage::MEGAPAGE_SIZE;
use crate::paging::{kernel_mapping, kernel_mappings, uart_mapping, Mapping};
use vstd::prelude::*;

verus! {

/// A slot in a capability space.
pub type CPtr = u64;

/// The slot of the launcher's capability to its own capability space, in that
/// space.
pub const SELF_CNODE_CPTR: CPtr = 0;

/// Where every program's stack is mapped: anywhere that no program is linked
/// at.
pub const STACK_VADDR: u64 = 0x8600_0000;

/// Where a program's heap is mapped: one megapage above the stack.
pub const HEAP_VADDR: u64 = 0x8620_0000;

/// Where a program may map the frames of its arena: sixteen megapages above
/// the heap, whatever the heap's size.
pub const ARENA_VADDR: u64 = 0x8820_0000;

/// The kinds of object that the launcher makes.
#[derive(Clone, Copy, PartialEq, Eq, Structural, Debug)]
pub enum ObjectType {
    Endpoint,
    Notification,
    CNode,
    Tcb,
    SchedContext,
    VSpace,
    FrameSmall,
    FrameMega,
}

/// The kinds of capability that the launcher goes on to use.
#[derive(Clone, Copy, PartialEq, Eq, Structural, Debug)]
pub enum CapabilityKind {
    CNode,
    Tcb,
    SchedContext,
    VSpace,
    Frame,
}

/// A kernel entry that takes its arguments in message registers.
#[derive(Clone, Copy, PartialEq, Eq, Structural, Debug)]
pub enum Call {
    UntypedRetype,
    CNodeMint,
    CNodeCopyCross,
    FrameMap,
    TcbConfigure,
}

/// One kernel call: the entry, the capability it is invoked on, and the
/// message registers it reads. A register that it does not read is zero.
#[derive(Clone, Copy, PartialEq, Eq, Structural, Debug)]
pub struct Invocation {
    pub call: Call,
    pub target: CPtr,
    pub mr1: u64,
    pub mr2: u64,
    pub mr3: u64,
}

/// What rights a capability has. How they are encoded is the kernel's affair.
#[derive(Clone, Copy, PartialEq, Eq, Structural, Debug)]
pub enum Rights {
    /// Every right there is.
    All,
    /// Just these.
    Only { read: bool, write: bool, grant: bool },
}

/// One step of bringing a program up. Every slot is one of the launcher's own
/// capability space, except `dest_slot`.
#[derive(Clone, Copy, PartialEq, Eq, Structural, Debug)]
pub enum Op {
    /// Make an object and put its capability at `dest`.
    Retype { object: ObjectType, dest: CPtr },
    /// Put a copy of the capability at `src`, with these rights and this
    /// badge, at `dest`.
    Mint { src: CPtr, dest: CPtr, rights: Rights, badge: u64 },
    /// Copy a capability from one capability space into another.
    CopyCross { source_cnode: CPtr, source_slot: CPtr, dest_cnode: CPtr, dest_slot: CPtr },
    /// Enter a mapping of the kernel's own into an address space.
    MapKernel { vspace: CPtr, mapping: Mapping },
    /// Map a frame into an address space.
    MapFrame { frame: CPtr, vspace: CPtr, vaddr: u64, perms: u64 },
    /// Copy bytes of the program's image into a frame.
    Copy { frame: CPtr, within_frame: u64, file_offset: u64, len: u64 },
    /// Set the registers that a thread starts with.
    SetContext { tcb: CPtr, entry: u64, stack_top: u64, arg0: u64 },
    /// Give a thread its capability space, its budget and its address space.
    Configure { tcb: CPtr, cnode: CPtr, sched: CPtr, vspace: CPtr },
}

/// A pool of frames that a program maps and unmaps itself.
#[derive(Clone, Copy, PartialEq, Eq, Structural, Debug)]
pub struct ArenaGrant {
    /// How many megapage frames to make and grant, unmapped.
    pub megapages: u64,
    /// The program's slot for a capability to its own address space.
    pub self_vspace_dest: CPtr,
    /// The program's slot for the first of the frames; the others follow.
    pub frame_dest_base: CPtr,
}

/// One program to load.
pub struct ProgramSpec<'a> {
    pub elf_bytes: &'a [u8],
    /// The argument that the program starts with.
    pub arg0: u64,
    /// Pairs of a slot of the launcher's and a slot of the program's: the
    /// capability at the first is copied to the second.
    pub grants: &'a [(CPtr, CPtr)],
    /// The program's slot for a capability to its own capability space, if it
    /// gets one.
    pub self_cnode_dest: Option<CPtr>,
    /// How many megapages of private heap the program gets.
    pub heap_megapages: u64,
    pub arena: Option<ArenaGrant>,
}

/// What a [`ProgramSpec`] says.
pub struct ProgramSpecView {
    pub elf: Seq<u8>,
    pub arg0: u64,
    pub grants: Seq<(CPtr, CPtr)>,
    pub self_cnode_dest: Option<CPtr>,
    pub heap_megapages: u64,
    pub arena: Option<ArenaGrant>,
}

impl<'a> View for ProgramSpec<'a> {
    type V = ProgramSpecView;

    open spec fn view(&self) -> ProgramSpecView {
        ProgramSpecView {
            elf: self.elf_bytes@,
            arg0: self.arg0,
            grants: self.grants@,
            self_cnode_dest: self.self_cnode_dest,
            heap_megapages: self.heap_megapages,
            arena: self.arena,
        }
    }
}

/// Where the capabilities of a loaded program's thread and address space are.
#[derive(Clone, Copy, PartialEq, Eq, Structural, Debug)]
pub struct LoadedProgram {
    pub tcb_cptr: CPtr,
    pub vspace_cptr: CPtr,
}

/// Everything that brings one program up, and where it then is.
pub struct LoadPlan {
    pub ops: Vec<Op>,
    pub program: LoadedProgram,
}

/// What a [`LoadPlan`] says.
pub struct LoadPlanView {
    pub ops: Seq<Op>,
    pub program: LoadedProgram,
}

impl View for LoadPlan {
    type V = LoadPlanView;

    open spec fn view(&self) -> LoadPlanView {
        LoadPlanView { ops: self.ops@, program: self.program }
    }
}

/// The kind of capability that the launcher relies on getting for an object of
/// this type. What it merely hands on may be of any kind.
pub open spec fn kind_of(object: ObjectType) -> Option<CapabilityKind> {
    match object {
        ObjectType::Endpoint => None,
        ObjectType::Notification => None,
        ObjectType::CNode => Some(CapabilityKind::CNode),
        ObjectType::Tcb => Some(CapabilityKind::Tcb),
        ObjectType::SchedContext => Some(CapabilityKind::SchedContext),
        ObjectType::VSpace => Some(CapabilityKind::VSpace),
        ObjectType::FrameSmall => Some(CapabilityKind::Frame),
        ObjectType::FrameMega => Some(CapabilityKind::Frame),
    }
}

/// A badge and rights in one register: the rights in the low byte, the badge
/// above them. The top byte of the badge does not fit.
pub open spec fn packed(rights: u8, badge: u64) -> int {
    (badge % 0x100_0000_0000_0000) * 0x100 + rights
}

/// The kind of capability that must come out of making this object, where it
/// matters.
pub fn expected_kind(object: ObjectType) -> (kind: Option<CapabilityKind>)
    ensures
        kind == kind_of(object),
{
    match object {
        ObjectType::Endpoint => None,
        ObjectType::Notification => None,
        ObjectType::CNode => Some(CapabilityKind::CNode),
        ObjectType::Tcb => Some(CapabilityKind::Tcb),
        ObjectType::SchedContext => Some(CapabilityKind::SchedContext),
        ObjectType::VSpace => Some(CapabilityKind::VSpace),
        ObjectType::FrameSmall => Some(CapabilityKind::Frame),
        ObjectType::FrameMega => Some(CapabilityKind::Frame),
    }
}

/// The call that makes an object from `untyped_cptr`, with its capability at
/// `dest`. `object_code` is the kernel's number for the object's type.
pub fn retype(untyped_cptr: CPtr, object_code: u64, dest: CPtr) -> (invocation: Invocation)
    ensures
        invocation == (Invocation {
            call: Call::UntypedRetype,
            target: untyped_cptr,
            mr1: object_code,
            mr2: dest,
            mr3: 0,
        }),
{
    Invocation {
        call: Call::UntypedRetype,
        target: untyped_cptr,
        mr1: object_code,
        mr2: dest,
        mr3: 0,
    }
}

/// The call that puts a copy of the launcher's capability at `src`, with
/// `rights` and `badge`, at its slot `dest`.
pub fn mint(src: CPtr, dest: CPtr, rights: u8, badge: u64) -> (invocation: Invocation)
    ensures
        invocation == (Invocation {
            call: Call::CNodeMint,
            target: SELF_CNODE_CPTR,
            mr1: src,
            mr2: dest,
            mr3: packed(rights, badge) as u64,
        }),
{
    let mr3: u64 = (badge << 8) | (rights as u64);
    assert((badge << 8) | (rights as u64) == (badge % 0x100_0000_0000_0000) * 0x100 + rights)
        by (bit_vector);
    Invocation { call: Call::CNodeMint, target: SELF_CNODE_CPTR, mr1: src, mr2: dest, mr3 }
}

/// The call that copies the capability at `source_slot` of the space named by
/// `source_cnode` into `dest_slot` of the space named by `dest_cnode`.
pub fn copy_cross(
    source_cnode: CPtr,
    source_slot: CPtr,
    dest_cnode: CPtr,
    dest_slot: CPtr,
) -> (invocation: Invocation)
    ensures
        invocation == (Invocation {
            call: Call::CNodeCopyCross,
            target: dest_cnode,
            mr1: source_cnode,
            mr2: source_slot,
            mr3: dest_slot,
        }),
{
    Invocation {
        call: Call::CNodeCopyCross,
        target: dest_cnode,
        mr1: source_cnode,
        mr2: source_slot,
        mr3: dest_slot,
    }
}

/// The call that maps the frame at `frame_cptr` into the address space at
/// `vspace_cptr`.
pub fn map(frame_cptr: CPtr, vspace_cptr: CPtr, vaddr: u64, perms: u64) -> (invocation: Invocation)
    ensures
        invocation == (Invocation {
            call: Call::FrameMap,
            target: frame_cptr,
            mr1: vspace_cptr,
            mr2: vaddr,
            mr3: perms,
        }),
{
    Invocation {
        call: Call::FrameMap,
        target: frame_cptr,
        mr1: vspace_cptr,
        mr2: vaddr,
        mr3: perms,
    }
}

/// The call that gives the thread at `tcb_cptr` what it runs with.
pub fn configure(
    tcb_cptr: CPtr,
    cnode_cptr: CPtr,
    sched_cptr: CPtr,
    vspace_cptr: CPtr,
) -> (invocation: Invocation)
    ensures
        invocation == (Invocation {
            call: Call::TcbConfigure,
            target: tcb_cptr,
            mr1: cnode_cptr,
            mr2: sched_cptr,
            mr3: vspace_cptr,
        }),
{
    Invocation {
        call: Call::TcbConfigure,
        target: tcb_cptr,
        mr1: cnode_cptr,
        mr2: sched_cptr,
        mr3: vspace_cptr,
    }
}

/// Read, write and user access: what private data is mapped with.
pub open spec fn data_perms() -> u64 {
    PERM_R | PERM_W | PERM_U
}

/// Copies the capability at the launcher's `source_slot` to the program's
/// `dest_slot`.
pub open spec fn grant_op(source_slot: int, cnode: int, dest_slot: int) -> Op {
    Op::CopyCross {
        source_cnode: SELF_CNODE_CPTR,
        source_slot: source_slot as u64,
        dest_cnode: cnode as u64,
        dest_slot: dest_slot as u64,
    }
}

/// Makes an object.
pub open spec fn retype_op(object: ObjectType, dest: int) -> Op {
    Op::Retype { object, dest: dest as u64 }
}

/// Maps a frame as a page says.
pub open spec fn map_op(frame: int, vspace: int, page: Page) -> Op {
    Op::MapFrame {
        frame: frame as u64,
        vspace: vspace as u64,
        vaddr: page.vaddr,
        perms: page.perms,
    }
}

/// Makes an address space that traps keep working in.
pub open spec fn vspace_ops(vspace: int) -> Seq<Op> {
    seq![
        retype_op(ObjectType::VSpace, vspace),
        Op::MapKernel { vspace: vspace as u64, mapping: kernel_mapping() },
        Op::MapKernel { vspace: vspace as u64, mapping: uart_mapping() },
    ]
}

/// Makes one megapage frame per page, at slots from `first` on, and maps each
/// as soon as it is made.
pub open spec fn page_ops(vspace: int, first: int, pages: Seq<Page>) -> Seq<Op>
    decreases pages.len(),
{
    if pages.len() == 0 {
        Seq::empty()
    } else {
        let frame = first + pages.len() - 1;
        page_ops(vspace, first, pages.drop_last()) + seq![
            retype_op(ObjectType::FrameMega, frame),
            map_op(frame, vspace, pages.last()),
        ]
    }
}

/// Copies a chunk into the frame of its page, the first page's frame being
/// `first`.
pub open spec fn copy_op(first: int, chunk: Chunk) -> Op {
    Op::Copy {
        frame: (first + chunk.page) as u64,
        within_frame: chunk.within_page,
        file_offset: chunk.file_offset,
        len: chunk.len,
    }
}

/// Copies the chunks, in order.
pub open spec fn copy_ops(first: int, chunks: Seq<Chunk>) -> Seq<Op> {
    Seq::new(chunks.len(), |i: int| copy_op(first, chunks[i]))
}

/// The page of the stack, then those of the heap.
pub open spec fn data_pages(heap_megapages: int) -> Seq<Page> {
    seq![Page { vaddr: STACK_VADDR, perms: data_perms() }] + Seq::new(
        heap_megapages as nat,
        |i: int| Page { vaddr: (HEAP_VADDR + i * MEGAPAGE_SIZE) as u64, perms: data_perms() },
    )
}

/// Copies what the description grants.
pub open spec fn grant_ops(cnode: int, grants: Seq<(CPtr, CPtr)>) -> Seq<Op> {
    Seq::new(grants.len(), |i: int| grant_op(grants[i].0 as int, cnode, grants[i].1 as int))
}

/// Grants the program its own capability space, if it gets that.
pub open spec fn self_cnode_ops(cnode: int, dest: Option<CPtr>) -> Seq<Op> {
    match dest {
        Some(slot) => seq![grant_op(cnode, cnode, slot as int)],
        None => Seq::empty(),
    }
}

/// Makes `n` frames at slots from `first` on and grants each, unmapped, at
/// slots from `dest_base` on.
pub open spec fn pool_ops(cnode: int, first: int, dest_base: int, n: int) -> Seq<Op>
    decreases n,
{
    if n <= 0 {
        Seq::empty()
    } else {
        pool_ops(cnode, first, dest_base, n - 1) + seq![
            retype_op(ObjectType::FrameMega, first + n - 1),
            grant_op(first + n - 1, cnode, dest_base + n - 1),
        ]
    }
}

/// Grants the program its own address space and a pool of unmapped frames, if
/// it gets an arena.
pub open spec fn arena_ops(
    vspace: int,
    cnode: int,
    first: int,
    arena: Option<ArenaGrant>,
) -> Seq<Op> {
    match arena {
        Some(a) => seq![grant_op(vspace, cnode, a.self_vspace_dest as int)] + pool_ops(
            cnode,
            first,
            a.frame_dest_base as int,
            a.megapages as int,
        ),
        None => Seq::empty(),
    }
}

/// Makes the thread and sets it up to start at the entry point, on its stack.
pub open spec fn thread_ops(sched: int, entry: u64, arg0: u64, cnode: int, vspace: int) -> Seq<Op> {
    seq![
        retype_op(ObjectType::SchedContext, sched),
        retype_op(ObjectType::Tcb, sched + 1),
        Op::SetContext {
            tcb: (sched + 1) as u64,
            entry,
            stack_top: (STACK_VADDR + MEGAPAGE_SIZE) as u64,
            arg0,
        },
        Op::Configure {
            tcb: (sched + 1) as u64,
            cnode: cnode as u64,
            sched: sched as u64,
            vspace: vspace as u64,
        },
    ]
}

/// How many frames the arena has.
pub open spec fn arena_megapages(arena: Option<ArenaGrant>) -> int {
    match arena {
        Some(a) => a.megapages as int,
        None => 0,
    }
}

/// The slot of the capability to the program's own space, when its address
/// space is at `slot` and its image has `n` pages.
pub open spec fn cnode_slot(spec: ProgramSpecView, n: int, slot: int) -> int {
    slot + n + spec.heap_megapages + 2
}

/// The slot of the program's budget.
pub open spec fn sched_slot(spec: ProgramSpecView, n: int, slot: int) -> int {
    cnode_slot(spec, n, slot) + 1 + arena_megapages(spec.arena)
}

/// The first slot that loading leaves free.
pub open spec fn slots_end(spec: ProgramSpecView, n: int, slot: int) -> int {
    sched_slot(spec, n, slot) + 2
}

/// The part of the plan that sets up memory.
pub open spec fn memory_ops(
    spec: ProgramSpecView,
    pages: Seq<Page>,
    chunks: Seq<Chunk>,
    slot: int,
) -> Seq<Op> {
    vspace_ops(slot) + page_ops(slot, slot + 1, pages) + copy_ops(slot + 1, chunks) + page_ops(
        slot,
        slot + 1 + pages.len(),
        data_pages(spec.heap_megapages as int),
    )
}

/// The part of the plan that fills the program's capability space.
pub open spec fn cspace_ops(spec: ProgramSpecView, n: int, slot: int) -> Seq<Op> {
    let cnode = cnode_slot(spec, n, slot);
    seq![retype_op(ObjectType::CNode, cnode)] + grant_ops(cnode, spec.grants) + self_cnode_ops(
        cnode,
        spec.self_cnode_dest,
    ) + arena_ops(slot, cnode, cnode + 1, spec.arena)
}

/// The whole plan, for an image with this header and layout.
pub open spec fn load_ops(
    spec: ProgramSpecView,
    header: ElfHeader,
    pages: Seq<Page>,
    chunks: Seq<Chunk>,
    slot: int,
) -> Seq<Op> {
    let n = pages.len() as int;
    memory_ops(spec, pages, chunks, slot) + cspace_ops(spec, n, slot) + thread_ops(
        sched_slot(spec, n, slot),
        header.entry,
        spec.arg0,
        cnode_slot(spec, n, slot),
        slot,
    )
}

/// What loading a program with slots from `slot` on comes to: the plan and
/// the first slot it leaves free, or why there is none.
pub open spec fn load_of(spec: ProgramSpecView, slot: int) -> Result<
    (LoadPlanView, int),
    LoadError,
> {
    match header_of(spec.elf) {
        Err(error) => Err(LoadError::Header(error)),
        Ok(header) => match pages_of(spec.elf, header, header.phnum as int) {
            Err(error) => Err(error),
            Ok(pages) => {
                let n = pages.len() as int;
                let chunks = chunks_of(spec.elf, header, pages, header.phnum as int);
                Ok(
                    (
                        LoadPlanView {
                            ops: load_ops(spec, header, pages, chunks, slot),
                            program: LoadedProgram {
                                tcb_cptr: (sched_slot(spec, n, slot) + 1) as u64,
                                vspace_cptr: slot as u64,
                            },
                        },
                        slots_end(spec, n, slot),
                    ),
                )
            },
        },
    }
}

/// What loading the first `n` programs in order comes to.
pub open spec fn load_all_of(specs: Seq<ProgramSpecView>, n: int, slot: int) -> Result<
    (Seq<LoadPlanView>, int),
    LoadError,
>
    decreases n,
{
    if n <= 0 {
        Ok((Seq::empty(), slot))
    } else {
        match load_all_of(specs, n - 1, slot) {
            Err(error) => Err(error),
            Ok((plans, next)) => match load_of(specs[n - 1], next) {
                Err(error) => Err(error),
                Ok((plan, end)) => Ok((plans.push(plan), end)),
            },
        }
    }
}

/// The most slots that loading this program takes.
pub open spec fn slots_at_most(spec: ProgramSpecView) -> int {
    MAX_PROGRAM_MEGAPAGES + spec.heap_megapages + arena_megapages(spec.arena) + 5
}

/// The most slots that loading the first `n` programs takes.
pub open spec fn all_slots_at_most(specs: Seq<ProgramSpecView>, n: int) -> int
    decreases n,
{
    if n <= 0 {
        0
    } else {
        all_slots_at_most(specs, n - 1) + slots_at_most(specs[n - 1])
    }
}

/// The addresses of the heap's pages and the slots of the arena's frames are
/// machine words.
pub open spec fn sizes_fit(spec: ProgramSpecView) -> bool {
    &&& HEAP_VADDR + spec.heap_megapages * MEGAPAGE_SIZE <= u64::MAX
    &&& spec.arena matches Some(a) ==> a.frame_dest_base + a.megapages <= u64::MAX
}

/// The two entries of the kernel's own in the address space at `vspace_cptr`.
/// They are no frames, and are entered past the capability system.
pub fn map_kernel_shared(vspace_cptr: CPtr, ops: &mut Vec<Op>)
    ensures
        final(ops)@ == old(ops)@ + seq![
            Op::MapKernel { vspace: vspace_cptr, mapping: kernel_mapping() },
            Op::MapKernel { vspace: vspace_cptr, mapping: uart_mapping() },
        ],
{
    let mappings: [Mapping; 2] = kernel_mappings();
    ops.push(Op::MapKernel { vspace: vspace_cptr, mapping: mappings[0] });
    ops.push(Op::MapKernel { vspace: vspace_cptr, mapping: mappings[1] });
    assert(ops@ =~= old(ops)@ + seq![
        Op::MapKernel { vspace: vspace_cptr, mapping: kernel_mapping() },
        Op::MapKernel { vspace: vspace_cptr, mapping: uart_mapping() },
    ]);
}

/// Adds the steps that make and map one frame per page.
fn push_pages(ops: &mut Vec<Op>, vspace: CPtr, first: CPtr, pages: &Vec<Page>)
    requires
        first + pages@.len() <= u64::MAX,
    ensures
        final(ops)@ == old(ops)@ + page_ops(vspace as int, first as int, pages@),
{
    let mut i: usize = 0;
    assert(ops@ + page_ops(vspace as int, first as int, pages@.take(0)) =~= ops@);
    while i < pages.len()
        invariant
            i <= pages@.len(),
            first + pages@.len() <= u64::MAX,
            ops@ == old(ops)@ + page_ops(vspace as int, first as int, pages@.take(i as int)),
        decreases pages@.len() - i,
    {
        let ghost before = ops@;
        let frame: CPtr = first + i as u64;
        ops.push(Op::Retype { object: ObjectType::FrameMega, dest: frame });
        ops.push(
            Op::MapFrame { frame, vspace, vaddr: pages[i].vaddr, perms: pages[i].perms },
        );
        proof {
            let more = pages@.take(i + 1);
            assert(more.drop_last() =~= pages@.take(i as int));
            assert(more.last() == pages@[i as int]);
            assert(ops@ =~= before + seq![
                retype_op(ObjectType::FrameMega, frame as int),
                map_op(frame as int, vspace as int, pages@[i as int]),
            ]);
            assert(ops@ =~= old(ops)@ + page_ops(vspace as int, first as int, more));
        }
        i = i + 1;
    }
    assert(pages@.take(pages@.len() as int) =~= pages@);
}

/// Adds the steps that copy the chunks.
fn push_copies(ops: &mut Vec<Op>, first: CPtr, chunks: &Vec<Chunk>)
    requires
        forall|i: int|
            0 <= i < chunks@.len() ==> first + (#[trigger] chunks@[i]).page <= u64::MAX,
    ensures
        final(ops)@ == old(ops)@ + copy_ops(first as int, chunks@),
{
    let mut i: usize = 0;
    assert(ops@ + copy_ops(first as int, chunks@.take(0)) =~= ops@);
    while i < chunks.len()
        invariant
            i <= chunks@.len(),
            forall|i: int|
                0 <= i < chunks@.len() ==> first + (#[trigger] chunks@[i]).page <= u64::MAX,
            ops@ == old(ops)@ + copy_ops(first as int, chunks@.take(i as int)),
        decreases chunks@.len() - i,
    {
        let chunk: Chunk = chunks[i];
        ops.push(
            Op::Copy {
                frame: first + chunk.page,
                within_frame: chunk.within_page,
                file_offset: chunk.file_offset,
                len: chunk.len,
            },
        );
        assert(ops@ =~= old(ops)@ + copy_ops(first as int, chunks@.take(i + 1)));
        i = i + 1;
    }
    assert(chunks@.take(chunks@.len() as int) =~= chunks@);
}

/// The page of the stack, then those of the heap.
fn plan_data_pages(heap_megapages: u64) -> (pages: Vec<Page>)
    requires
        HEAP_VADDR + heap_megapages * MEGAPAGE_SIZE <= u64::MAX,
    ensures
        pages@ == data_pages(heap_megapages as int),
{
    let perms: u64 = PERM_R | PERM_W | PERM_U;
    let mut pages: Vec<Page> = Vec::new();
    pages.push(Page { vaddr: STACK_VADDR, perms });
    let mut i: u64 = 0;
    assert(pages@ =~= data_pages(0));
    while i < heap_megapages
        invariant
            i <= heap_megapages,
            HEAP_VADDR + heap_megapages * MEGAPAGE_SIZE <= u64::MAX,
            perms == data_perms(),
            pages@ == data_pages(i as int),
        decreases heap_megapages - i,
    {
        pages.push(Page { vaddr: HEAP_VADDR + i * MEGAPAGE_SIZE, perms });
        assert(pages@ =~= data_pages(i + 1));
        i = i + 1;
    }
    pages
}

/// Adds the steps that copy what the description grants.
fn push_grants(ops: &mut Vec<Op>, cnode: CPtr, grants: &[(CPtr, CPtr)])
    ensures
        final(ops)@ == old(ops)@ + grant_ops(cnode as int, grants@),
{
    let mut i: usize = 0;
    assert(ops@ + grant_ops(cnode as int, grants@.take(0)) =~= ops@);
    while i < grants.len()
        invariant
            i <= grants@.len(),
            ops@ == old(ops)@ + grant_ops(cnode as int, grants@.take(i as int)),
        decreases grants@.len() - i,
    {
        let grant: (CPtr, CPtr) = grants[i];
        ops.push(
            Op::CopyCross {
                source_cnode: SELF_CNODE_CPTR,
                source_slot: grant.0,
                dest_cnode: cnode,
                dest_slot: grant.1,
            },
        );
        assert(ops@ =~= old(ops)@ + grant_ops(cnode as int, grants@.take(i + 1)));
        i = i + 1;
    }
    assert(grants@.take(grants@.len() as int) =~= grants@);
}

/// Adds the steps that make and grant the frames of an arena.
fn push_pool(ops: &mut Vec<Op>, cnode: CPtr, first: CPtr, dest_base: CPtr, n: u64)
    requires
        first + n <= u64::MAX,
        dest_base + n <= u64::MAX,
    ensures
        final(ops)@ == old(ops)@ + pool_ops(cnode as int, first as int, dest_base as int, n as int),
{
    let mut i: u64 = 0;
    assert(ops@ + pool_ops(cnode as int, first as int, dest_base as int, 0) =~= ops@);
    while i < n
        invariant
            i <= n,
            first + n <= u64::MAX,
            dest_base + n <= u64::MAX,
            ops@ == old(ops)@ + pool_ops(cnode as int, first as int, dest_base as int, i as int),
        decreases n - i,
    {
        let ghost before = ops@;
        ops.push(Op::Retype { object: ObjectType::FrameMega, dest: first + i });
        ops.push(
            Op::CopyCross {
                source_cnode: SELF_CNODE_CPTR,
                source_slot: first + i,
                dest_cnode: cnode,
                dest_slot: dest_base + i,
            },
        );
        proof {
            assert(ops@ =~= before + seq![
                retype_op(ObjectType::FrameMega, first + i),
                grant_op(first + i, cnode as int, dest_base + i),
            ]);
            assert(ops@ =~= old(ops)@ + pool_ops(
                cnode as int,
                first as int,
                dest_base as int,
                i + 1,
            ));
        }
        i = i + 1;
    }
}

/// Adds the steps that set up memory.
fn push_memory(
    ops: &mut Vec<Op>,
    spec: &ProgramSpec,
    pages: &Vec<Page>,
    chunks: &Vec<Chunk>,
    vspace_cptr: CPtr,
)
    requires
        sizes_fit(spec@),
        pages@.len() <= MAX_PROGRAM_MEGAPAGES,
        vspace_cptr + slots_at_most(spec@) <= u64::MAX,
        forall|i: int| 0 <= i < chunks@.len() ==> (#[trigger] chunks@[i]).page < pages@.len(),
    ensures
        final(ops)@ == old(ops)@ + memory_ops(spec@, pages@, chunks@, vspace_cptr as int),
{
    let ghost start = ops@;
    let ghost slot = vspace_cptr as int;
    let frames: CPtr = vspace_cptr + 1;
    ops.push(Op::Retype { object: ObjectType::VSpace, dest: vspace_cptr });
    map_kernel_shared(vspace_cptr, ops);
    assert(ops@ =~= start + vspace_ops(slot));
    push_pages(ops, vspace_cptr, frames, pages);
    push_copies(ops, frames, chunks);
    let data: Vec<Page> = plan_data_pages(spec.heap_megapages);
    push_pages(ops, vspace_cptr, frames + pages.len() as u64, &data);
    proof {
        let a = vspace_ops(slot);
        let b = page_ops(slot, slot + 1, pages@);
        let c = copy_ops(slot + 1, chunks@);
        let d = page_ops(slot, slot + 1 + pages@.len(), data@);
        assert(start + a + b + c + d =~= start + (a + b + c + d));
    }
}

/// Adds the steps that grant an arena, if there is one, and gives the first
/// slot that they leave free.
fn push_arena(
    ops: &mut Vec<Op>,
    arena: &Option<ArenaGrant>,
    vspace_cptr: CPtr,
    cnode_cptr: CPtr,
    first: CPtr,
) -> (next: CPtr)
    requires
        first + arena_megapages(*arena) <= u64::MAX,
        arena matches Some(a) ==> a.frame_dest_base + a.megapages <= u64::MAX,
    ensures
        next == first + arena_megapages(*arena),
        final(ops)@ == old(ops)@ + arena_ops(
            vspace_cptr as int,
            cnode_cptr as int,
            first as int,
            *arena,
        ),
{
    let ghost start = ops@;
    match arena {
        Some(a) => {
            ops.push(
                Op::CopyCross {
                    source_cnode: SELF_CNODE_CPTR,
                    source_slot: vspace_cptr,
                    dest_cnode: cnode_cptr,
                    dest_slot: a.self_vspace_dest,
                },
            );
            push_pool(ops, cnode_cptr, first, a.frame_dest_base, a.megapages);
            proof {
                let own = grant_op(
                    vspace_cptr as int,
                    cnode_cptr as int,
                    a.self_vspace_dest as int,
                );
                let pool = pool_ops(
                    cnode_cptr as int,
                    first as int,
                    a.frame_dest_base as int,
                    a.megapages as int,
                );
                assert(start.push(own) + pool =~= start + (seq![own] + pool));
            }
            first + a.megapages
        },
        None => {
            assert(ops@ =~= start + Seq::<Op>::empty());
            first
        },
    }
}

/// Adds the steps that fill the program's capability space, and gives the
/// first slot that they leave free.
fn push_cspace(
    ops: &mut Vec<Op>,
    spec: &ProgramSpec,
    vspace_cptr: CPtr,
    cnode_cptr: CPtr,
    Ghost(n): Ghost<int>,
) -> (next: CPtr)
    requires
        sizes_fit(spec@),
        cnode_cptr == cnode_slot(spec@, n, vspace_cptr as int),
        sched_slot(spec@, n, vspace_cptr as int) <= u64::MAX,
    ensures
        next == sched_slot(spec@, n, vspace_cptr as int),
        final(ops)@ == old(ops)@ + cspace_ops(spec@, n, vspace_cptr as int),
{
    let ghost start = ops@;
    ops.push(Op::Retype { object: ObjectType::CNode, dest: cnode_cptr });
    push_grants(ops, cnode_cptr, spec.grants);
    let ghost granted = ops@;
    match spec.self_cnode_dest {
        Some(dest_slot) => {
            ops.push(
                Op::CopyCross {
                    source_cnode: SELF_CNODE_CPTR,
                    source_slot: cnode_cptr,
                    dest_cnode: cnode_cptr,
                    dest_slot,
                },
            );
        },
        None => {},
    }
    assert(ops@ =~= granted + self_cnode_ops(cnode_cptr as int, spec.self_cnode_dest));
    let next: CPtr = push_arena(ops, &spec.arena, vspace_cptr, cnode_cptr, cnode_cptr + 1);
    proof {
        let cnode = cnode_cptr as int;
        let a = seq![retype_op(ObjectType::CNode, cnode)];
        let b = grant_ops(cnode, spec.grants@);
        let c = self_cnode_ops(cnode, spec.self_cnode_dest);
        let d = arena_ops(vspace_cptr as int, cnode, cnode + 1, spec.arena);
        assert(start.push(a[0]) + b + c + d =~= start + (a + b + c + d));
    }
    next
}

/// Works out how to load one program: a fresh address space with its image,
/// its stack and its heap, a capability space with exactly the capabilities
/// that the description names, and a thread set up to start. `next_slot` is
/// the first free slot of the launcher's, and is moved past those that the
/// plan takes; where the image cannot be loaded it stays where it is.
pub fn load(spec: &ProgramSpec, next_slot: &mut CPtr) -> (result: Result<LoadPlan, LoadError>)
    requires
        sizes_fit(spec@),
        *old(next_slot) + slots_at_most(spec@) <= u64::MAX,
    ensures
        (match result {
            Ok(plan) => load_of(spec@, *old(next_slot) as int) == Ok::<
                (LoadPlanView, int),
                LoadError,
            >((plan@, *final(next_slot) as int)),
            Err(error) => load_of(spec@, *old(next_slot) as int) == Err::<
                (LoadPlanView, int),
                LoadError,
            >(error) && *final(next_slot) == *old(next_slot),
        }),
{
    assert(spec.elf_bytes.len() == spec.elf_bytes@.len());
    let header: ElfHeader = match parse_header(spec.elf_bytes) {
        Ok(header) => header,
        Err(error) => return Err(LoadError::Header(error)),
    };
    let pages: Vec<Page> = match plan_pages(spec.elf_bytes, &header) {
        Ok(pages) => pages,
        Err(error) => return Err(error),
    };
    let chunks: Vec<Chunk> = plan_chunks(spec.elf_bytes, &header, &pages);
    proof {
        law_pages_are_distinct(spec.elf_bytes@, header, pages@);
        law_chunks_stay_in_bounds(spec.elf_bytes@, header, pages@);
        assert forall|i: int| 0 <= i < chunks@.len() implies (#[trigger] chunks@[i]).page
            < pages@.len() by {
            assert(chunk_ok(chunks@[i], pages@, spec.elf_bytes@));
        }
    }

    let vspace_cptr: CPtr = *next_slot;
    let cnode_cptr: CPtr = vspace_cptr + pages.len() as u64 + spec.heap_megapages + 2;
    let ghost n = pages@.len() as int;
    let ghost slot = vspace_cptr as int;
    let mut ops: Vec<Op> = Vec::new();
    push_memory(&mut ops, spec, &pages, &chunks, vspace_cptr);
    let sched_cptr: CPtr = push_cspace(&mut ops, spec, vspace_cptr, cnode_cptr, Ghost(n));
    let tcb_cptr: CPtr = sched_cptr + 1;
    ops.push(Op::Retype { object: ObjectType::SchedContext, dest: sched_cptr });
    ops.push(Op::Retype { object: ObjectType::Tcb, dest: tcb_cptr });
    ops.push(
        Op::SetContext {
            tcb: tcb_cptr,
            entry: header.entry,
            stack_top: STACK_VADDR + MEGAPAGE_SIZE,
            arg0: spec.arg0,
        },
    );
    ops.push(
        Op::Configure {
            tcb: tcb_cptr,
            cnode: cnode_cptr,
            sched: sched_cptr,
            vspace: vspace_cptr,
        },
    );
    assert(ops@ =~= load_ops(spec@, header, pages@, chunks@, slot));
    *next_slot = tcb_cptr + 1;
    Ok(LoadPlan { ops, program: LoadedProgram { tcb_cptr, vspace_cptr } })
}

/// What a sequence of plans says.
pub open spec fn plan_views(plans: Seq<LoadPlan>) -> Seq<LoadPlanView> {
    Seq::new(plans.len(), |i: int| plans[i]@)
}

/// A plan takes no more slots than its description allows for.
pub proof fn lemma_slots_taken(spec: ProgramSpecView, slot: int)
    ensures
        load_of(spec, slot) matches Ok((_, end)) ==> slot + 5 <= end <= slot + slots_at_most(spec),
{
    match header_of(spec.elf) {
        Ok(header) => {
            match pages_of(spec.elf, header, header.phnum as int) {
                Ok(pages) => {
                    law_pages_are_distinct(spec.elf, header, pages);
                },
                Err(_) => {},
            }
        },
        Err(_) => {},
    }
}

/// More programs take more slots.
pub proof fn lemma_all_slots_monotonic(specs: Seq<ProgramSpecView>, n: int, m: int)
    requires
        n <= m,
    ensures
        all_slots_at_most(specs, n) <= all_slots_at_most(specs, m),
    decreases m - n,
{
    if n < m {
        lemma_all_slots_monotonic(specs, n, m - 1);
    }
}

/// A program that cannot be loaded stays the reason.
proof fn lemma_load_all_error(specs: Seq<ProgramSpecView>, n: int, m: int, slot: int)
    requires
        n <= m,
        load_all_of(specs, n, slot) is Err,
    ensures
        load_all_of(specs, m, slot) == load_all_of(specs, n, slot),
    decreases m - n,
{
    if n < m {
        lemma_load_all_error(specs, n, m - 1, slot);
    }
}

/// What a sequence of descriptions says.
pub open spec fn program_views<'a>(specs: Seq<ProgramSpec<'a>>) -> Seq<ProgramSpecView> {
    Seq::new(specs.len(), |i: int| specs[i]@)
}

/// Works out how to load every program of a launch description, in order. If
/// one of them cannot be loaded none is, and the first such one is the reason.
pub fn load_all(specs: &[ProgramSpec], next_slot: &mut CPtr) -> (result: Result<
    Vec<LoadPlan>,
    LoadError,
>)
    requires
        forall|i: int| 0 <= i < specs@.len() ==> sizes_fit((#[trigger] specs@[i])@),
        *old(next_slot) + all_slots_at_most(program_views(specs@), specs@.len() as int) <= u64::MAX,
    ensures
        (match result {
            Ok(plans) => load_all_of(
                program_views(specs@),
                specs@.len() as int,
                *old(next_slot) as int,
            ) == Ok::<(Seq<LoadPlanView>, int), LoadError>(
                (plan_views(plans@), *final(next_slot) as int),
            ),
            Err(error) => load_all_of(
                program_views(specs@),
                specs@.len() as int,
                *old(next_slot) as int,
            ) == Err::<(Seq<LoadPlanView>, int), LoadError>(error) && *final(next_slot) == *old(
                next_slot,
            ),
        }),
{
    let ghost views = program_views(specs@);
    let ghost count = specs@.len() as int;
    let ghost slot = *next_slot as int;
    let mut plans: Vec<LoadPlan> = Vec::new();
    let mut next: CPtr = *next_slot;
    let mut i: usize = 0;
    assert(plan_views(plans@) =~= Seq::empty());
    while i < specs.len()
        invariant
            i <= specs@.len(),
            count == specs@.len(),
            views == program_views(specs@),
            forall|i: int| 0 <= i < specs@.len() ==> sizes_fit((#[trigger] specs@[i])@),
            slot + all_slots_at_most(views, count) <= u64::MAX,
            next <= slot + all_slots_at_most(views, i as int),
            load_all_of(views, i as int, slot) == Ok::<(Seq<LoadPlanView>, int), LoadError>(
                (plan_views(plans@), next as int),
            ),
            *next_slot == slot,
            *old(next_slot) == slot,
        decreases specs@.len() - i,
    {
        let ghost before = plan_views(plans@);
        proof {
            lemma_all_slots_monotonic(views, i + 1, count);
            lemma_slots_taken(views[i as int], next as int);
        }
        match load(&specs[i], &mut next) {
            Ok(plan) => {
                plans.push(plan);
                assert(plan_views(plans@) =~= before.push(plan@));
            },
            Err(error) => {
                proof {
                    lemma_load_all_error(views, i + 1, count, slot);
                }
                return Err(error);
            },
        }
        i = i + 1;
    }
    *next_slot = next;
    Ok(plans)
}

/// Makes one small frame and maps it for reading and writing into two address
/// spaces.
pub open spec fn shared_frame_ops(
    frame: int,
    vspace_a: CPtr,
    vaddr_a: u64,
    vspace_b: CPtr,
    vaddr_b: u64,
) -> Seq<Op> {
    seq![
        retype_op(ObjectType::FrameSmall, frame),
        map_op(frame, vspace_a as int, Page { vaddr: vaddr_a, perms: data_perms() }),
        map_op(frame, vspace_b as int, Page { vaddr: vaddr_b, perms: data_perms() }),
    ]
}

/// Works out how to give two programs a frame in common: neither gets a
/// capability to it, each just has it mapped at its own address.
pub fn map_shared_frame(
    vspace_a: CPtr,
    vaddr_a: u64,
    vspace_b: CPtr,
    vaddr_b: u64,
    next_slot: &mut CPtr,
) -> (ops: Vec<Op>)
    requires
        *old(next_slot) < u64::MAX,
    ensures
        *final(next_slot) == *old(next_slot) + 1,
        ops@ == shared_frame_ops(*old(next_slot) as int, vspace_a, vaddr_a, vspace_b, vaddr_b),
{
    let frame: CPtr = *next_slot;
    *next_slot = frame + 1;
    let perms: u64 = PERM_R | PERM_W | PERM_U;
    let mut ops: Vec<Op> = Vec::new();
    ops.push(Op::Retype { object: ObjectType::FrameSmall, dest: frame });
    ops.push(Op::MapFrame { frame, vspace: vspace_a, vaddr: vaddr_a, perms });
    ops.push(Op::MapFrame { frame, vspace: vspace_b, vaddr: vaddr_b, perms });
    assert(ops@ =~= shared_frame_ops(frame as int, vspace_a, vaddr_a, vspace_b, vaddr_b));
    ops
}

} // verus!

//! Laying out a program's image: which megapages its segments touch, with
//! which permissions, and which file bytes go where in them.

use crate::elf::{
    program_header, program_header_of, ElfError, ElfHeader, ProgramHeader, PF_R, PF_W, PF_X,
};
use crate::megapage::{page_ceil, page_floor, round_down, round_up, MEGAPAGE_SIZE};
use vstd::prelude::*;

verus! {

/// Mapping permission bits: read, write, execute, user.
pub const PERM_R: u64 = 1;

pub const PERM_W: u64 = 2;

pub const PERM_X: u64 = 4;

pub const PERM_U: u64 = 8;

/// The most distinct megapages that one image may touch: generous for a
/// handful of segments of at most a couple of megapages each.
pub const MAX_PROGRAM_MEGAPAGES: usize = 8;

/// Why a program cannot be loaded.
#[derive(Clone, Copy, PartialEq, Eq, Structural, Debug)]
pub enum LoadError {
    /// The file header is not acceptable.
    Header(ElfError),
    /// A program header is not acceptable.
    ProgramHeader(ElfError),
    /// A segment runs past the end of the address range.
    AddressOverflow,
    /// The image touches more distinct megapages than the table holds.
    TooManyMegapages,
}

/// A megapage of an image and the permissions that it is mapped with.
#[derive(Clone, Copy, PartialEq, Eq, Structural, Debug)]
pub struct Page {
    pub vaddr: u64,
    pub perms: u64,
}

/// A run of file bytes that lands in one megapage.
#[derive(Clone, Copy, PartialEq, Eq, Structural, Debug)]
pub struct Chunk {
    /// Which page of the table.
    pub page: u64,
    /// Where in that page the bytes go.
    pub within_page: u64,
    /// Where in the file the bytes are.
    pub file_offset: u64,
    pub len: u64,
}

/// The mapping permissions of a segment with these flags.
pub open spec fn perms_of(flags: u32) -> u64 {
    PERM_U | (if flags & PF_R != 0 {
        PERM_R
    } else {
        0
    }) | (if flags & PF_W != 0 {
        PERM_W
    } else {
        0
    }) | (if flags & PF_X != 0 {
        PERM_X
    } else {
        0
    })
}

/// The first page from index `from` on that starts at `vaddr`.
pub open spec fn find_page(pages: Seq<Page>, vaddr: int, from: int) -> Option<int>
    decreases pages.len() - from,
{
    if from >= pages.len() {
        None
    } else if pages[from].vaddr == vaddr {
        Some(from)
    } else {
        find_page(pages, vaddr, from + 1)
    }
}

/// The table with the page at `vaddr` recorded: its permissions grow by
/// `perms` where it is known, and it is appended where it is new.
pub open spec fn add_page(pages: Seq<Page>, vaddr: int, perms: u64) -> Result<
    Seq<Page>,
    LoadError,
> {
    match find_page(pages, vaddr, 0) {
        Some(i) => Ok(
            pages.update(i, Page { vaddr: pages[i].vaddr, perms: pages[i].perms | perms }),
        ),
        None => if pages.len() < MAX_PROGRAM_MEGAPAGES {
            Ok(pages.push(Page { vaddr: vaddr as u64, perms }))
        } else {
            Err(LoadError::TooManyMegapages)
        },
    }
}

/// The table with every page in `[vaddr, end)` recorded.
pub open spec fn add_pages(pages: Seq<Page>, vaddr: int, end: int, perms: u64) -> Result<
    Seq<Page>,
    LoadError,
>
    decreases
            (if vaddr < end {
                end - vaddr
            } else {
                0
            }),
{
    if vaddr >= end {
        Ok(pages)
    } else {
        match add_page(pages, vaddr, perms) {
            Err(error) => Err(error),
            Ok(more) => add_pages(more, vaddr + MEGAPAGE_SIZE, end, perms),
        }
    }
}

/// The segment's memory range, rounded up to a page, stays in the address
/// range.
pub open spec fn addressable(ph: ProgramHeader) -> bool {
    ph.vaddr + ph.memsz + MEGAPAGE_SIZE - 1 <= u64::MAX
}

/// The first page that a segment touches.
pub open spec fn segment_start(ph: ProgramHeader) -> int {
    page_floor(ph.vaddr as int)
}

/// The end of the last page that a segment touches.
pub open spec fn segment_end(ph: ProgramHeader) -> int {
    page_ceil(ph.vaddr + ph.memsz)
}

/// The pages that the first `n` program headers touch, in the order in which
/// they are first touched, or the first reason why there is no such table.
pub open spec fn pages_of(image: Seq<u8>, header: ElfHeader, n: int) -> Result<
    Seq<Page>,
    LoadError,
>
    decreases n,
{
    if n <= 0 {
        Ok(Seq::empty())
    } else {
        match pages_of(image, header, n - 1) {
            Err(error) => Err(error),
            Ok(pages) => match program_header_of(image, header, n - 1) {
                Err(error) => Err(LoadError::ProgramHeader(error)),
                Ok(None) => Ok(pages),
                Ok(Some(ph)) => if addressable(ph) {
                    add_pages(pages, segment_start(ph), segment_end(ph), perms_of(ph.flags))
                } else {
                    Err(LoadError::AddressOverflow)
                },
            },
        }
    }
}

/// The file bytes of a segment that land in the page at `vaddr`, which is
/// number `page` in the table.
pub open spec fn chunk_in(ph: ProgramHeader, vaddr: int, page: int) -> Option<Chunk> {
    let start = if vaddr >= ph.vaddr {
        vaddr
    } else {
        ph.vaddr as int
    };
    let end = if vaddr + MEGAPAGE_SIZE <= ph.vaddr + ph.filesz {
        vaddr + MEGAPAGE_SIZE
    } else {
        ph.vaddr + ph.filesz
    };
    if start < end {
        Some(
            Chunk {
                page: page as u64,
                within_page: (start - vaddr) as u64,
                file_offset: (ph.offset + (start - ph.vaddr)) as u64,
                len: (end - start) as u64,
            },
        )
    } else {
        None
    }
}

/// The chunks of a segment in the pages of `[vaddr, end)`.
pub open spec fn chunks_in(pages: Seq<Page>, ph: ProgramHeader, vaddr: int, end: int) -> Seq<Chunk>
    decreases
            (if vaddr < end {
                end - vaddr
            } else {
                0
            }),
{
    if vaddr >= end {
        Seq::empty()
    } else {
        let first = match find_page(pages, vaddr, 0) {
            Some(page) => match chunk_in(ph, vaddr, page) {
                Some(chunk) => seq![chunk],
                None => Seq::empty(),
            },
            None => Seq::empty(),
        };
        first + chunks_in(pages, ph, vaddr + MEGAPAGE_SIZE, end)
    }
}

/// The chunks of the first `n` program headers, in order.
pub open spec fn chunks_of(image: Seq<u8>, header: ElfHeader, pages: Seq<Page>, n: int) -> Seq<
    Chunk,
>
    decreases n,
{
    if n <= 0 {
        Seq::empty()
    } else {
        chunks_of(image, header, pages, n - 1) + (match program_header_of(image, header, n - 1) {
            Ok(Some(ph)) => chunks_in(pages, ph, segment_start(ph), segment_end(ph)),
            _ => Seq::empty(),
        })
    }
}

/// The mapping permissions of a segment: user access, and each right that its
/// flags name.
pub fn segment_perms(ph: &ProgramHeader) -> (perms: u64)
    ensures
        perms == perms_of(ph.flags),
{
    let mut perms: u64 = PERM_U;
    if ph.flags & PF_R != 0 {
        perms = perms | PERM_R;
    }
    if ph.flags & PF_W != 0 {
        perms = perms | PERM_W;
    }
    if ph.flags & PF_X != 0 {
        perms = perms | PERM_X;
    }
    proof {
        let r = PERM_R;
        let w = PERM_W;
        let x = PERM_X;
        let u = PERM_U;
        assert(u | 0u64 == u && u | r | 0u64 == u | r && u | 0u64 | w == u | w && u | r | w | 0u64
            == u | r | w && u | 0u64 | 0u64 | x == u | x && u | 0u64 | 0u64 | 0u64 == u) by (
        bit_vector);
        assert(u | r | 0u64 | x == u | r | x && u | 0u64 | w | x == u | w | x && u | r | 0u64 | 0u64
            == u | r && u | 0u64 | w | 0u64 == u | w) by (bit_vector);
    }
    perms
}

/// The index of the page that starts at `vaddr`.
pub fn page_index(pages: &Vec<Page>, vaddr: u64) -> (index: Option<usize>)
    ensures
        index is Some <==> find_page(pages@, vaddr as int, 0) is Some,
        index matches Some(i) ==> i < pages@.len() && find_page(pages@, vaddr as int, 0) == Some(
            i as int,
        ),
{
    let mut i: usize = 0;
    while i < pages.len()
        invariant
            i <= pages@.len(),
            find_page(pages@, vaddr as int, 0) == find_page(pages@, vaddr as int, i as int),
        decreases pages@.len() - i,
    {
        if pages[i].vaddr == vaddr {
            return Some(i);
        }
        i = i + 1;
    }
    None
}

/// `find_page` finds a page that starts at `vaddr`, and finds one where there
/// is one.
pub proof fn lemma_find_page(pages: Seq<Page>, vaddr: int, from: int)
    requires
        0 <= from,
    ensures
        find_page(pages, vaddr, from) matches Some(i) ==> from <= i < pages.len() && pages[i].vaddr
            == vaddr,
        find_page(pages, vaddr, from) is None ==> forall|i: int|
            from <= i < pages.len() ==> (#[trigger] pages[i]).vaddr != vaddr,
    decreases pages.len() - from,
{
    if from < pages.len() && pages[from].vaddr != vaddr {
        lemma_find_page(pages, vaddr, from + 1);
    }
}

/// Facts about the page range of an addressable segment.
pub proof fn lemma_segment_range(ph: ProgramHeader)
    requires
        addressable(ph),
    ensures
        0 <= segment_start(ph) <= ph.vaddr,
        ph.vaddr + ph.memsz <= segment_end(ph),
        segment_end(ph) + MEGAPAGE_SIZE <= u64::MAX + 1,
        segment_start(ph) % (MEGAPAGE_SIZE as int) == 0,
        segment_end(ph) % (MEGAPAGE_SIZE as int) == 0,
        ph.vaddr < segment_start(ph) + MEGAPAGE_SIZE,
{
}

/// The first page that a segment touches, and the end of the last, or nothing
/// where the segment runs past the end of the address range.
pub fn segment_pages(ph: &ProgramHeader) -> (range: Option<(u64, u64)>)
    ensures
        range == (if addressable(*ph) {
            Some((segment_start(*ph) as u64, segment_end(*ph) as u64))
        } else {
            None
        }),
{
    let mem_end: u64 = match ph.vaddr.checked_add(ph.memsz) {
        Some(end) => end,
        None => return None,
    };
    if mem_end > u64::MAX - (MEGAPAGE_SIZE - 1) {
        return None;
    }
    Some((round_down(ph.vaddr, MEGAPAGE_SIZE), round_up(mem_end, MEGAPAGE_SIZE)))
}

/// Records every page in `[start, end)`, each with `perms`. On failure the
/// table is of no further use.
fn record_pages(pages: &mut Vec<Page>, start: u64, end: u64, perms: u64) -> (result: Result<
    (),
    LoadError,
>)
    requires
        end + MEGAPAGE_SIZE <= u64::MAX + 1,
    ensures
        (match result {
            Ok(_) => add_pages(old(pages)@, start as int, end as int, perms) == Ok::<
                Seq<Page>,
                LoadError,
            >(final(pages)@),
            Err(error) => add_pages(old(pages)@, start as int, end as int, perms) == Err::<
                Seq<Page>,
                LoadError,
            >(error),
        }),
{
    let mut v: u64 = start;
    while v < end
        invariant
            end + MEGAPAGE_SIZE <= u64::MAX + 1,
            add_pages(old(pages)@, start as int, end as int, perms) == add_pages(
                pages@,
                v as int,
                end as int,
                perms,
            ),
        decreases
                (if v < end {
                    end - v
                } else {
                    0
                }),
    {
        match page_index(pages, v) {
            Some(index) => {
                let known: Page = pages[index];
                pages.set(index, Page { vaddr: known.vaddr, perms: known.perms | perms });
            },
            None => {
                if pages.len() >= MAX_PROGRAM_MEGAPAGES {
                    return Err(LoadError::TooManyMegapages);
                }
                pages.push(Page { vaddr: v, perms });
            },
        }
        v = v + MEGAPAGE_SIZE;
    }
    Ok(())
}

/// The table of the megapages that the image's segments touch, each with the
/// union of the permissions of the segments that touch it. Two segments in
/// one megapage are common, and a megapage can be mapped only once.
pub fn plan_pages(image: &[u8], header: &ElfHeader) -> (result: Result<Vec<Page>, LoadError>)
    ensures
        (match result {
            Ok(pages) => pages_of(image@, *header, header.phnum as int) == Ok::<
                Seq<Page>,
                LoadError,
            >(pages@),
            Err(error) => pages_of(image@, *header, header.phnum as int) == Err::<
                Seq<Page>,
                LoadError,
            >(error),
        }),
{
    let mut pages: Vec<Page> = Vec::new();
    let mut i: u16 = 0;
    while i < header.phnum
        invariant
            i <= header.phnum,
            pages_of(image@, *header, i as int) == Ok::<Seq<Page>, LoadError>(pages@),
        decreases header.phnum - i,
    {
        let ghost before = pages@;
        match program_header(image, header, i) {
            Err(error) => {
                proof {
                    lemma_pages_error(image@, *header, i + 1, header.phnum as int);
                }
                return Err(LoadError::ProgramHeader(error));
            },
            Ok(None) => {},
            Ok(Some(ph)) => {
                match segment_pages(&ph) {
                    None => {
                        proof {
                            lemma_pages_error(image@, *header, i + 1, header.phnum as int);
                        }
                        return Err(LoadError::AddressOverflow);
                    },
                    Some((start, end)) => {
                        proof {
                            lemma_segment_range(ph);
                        }
                        let perms: u64 = segment_perms(&ph);
                        match record_pages(&mut pages, start, end, perms) {
                            Ok(_) => {},
                            Err(error) => {
                                proof {
                                    lemma_pages_error(image@, *header, i + 1, header.phnum as int);
                                }
                                return Err(error);
                            },
                        }
                    },
                }
            },
        }
        i = i + 1;
    }
    Ok(pages)
}

/// A reason to give up stays the reason.
proof fn lemma_pages_error(image: Seq<u8>, header: ElfHeader, n: int, m: int)
    requires
        n <= m,
        pages_of(image, header, n) is Err,
    ensures
        pages_of(image, header, m) == pages_of(image, header, n),
    decreases m - n,
{
    if n < m {
        lemma_pages_error(image, header, n, m - 1);
    }
}

/// Where there is a table, every program header is acceptable and every
/// segment addressable.
pub proof fn lemma_pages_ok(image: Seq<u8>, header: ElfHeader, n: int, i: int)
    requires
        0 <= i < n,
        pages_of(image, header, n) is Ok,
    ensures
        pages_of(image, header, i) is Ok,
        pages_of(image, header, i + 1) is Ok,
        program_header_of(image, header, i) is Ok,
        program_header_of(image, header, i) matches Ok(Some(ph)) ==> addressable(ph),
{
    if pages_of(image, header, i) is Err {
        lemma_pages_error(image, header, i, n);
    }
    if pages_of(image, header, i + 1) is Err {
        lemma_pages_error(image, header, i + 1, n);
    }
}

/// The segment's file bytes that land in the page at `vaddr`.
fn plan_chunk(ph: &ProgramHeader, vaddr: u64, page: usize) -> (chunk: Option<Chunk>)
    requires
        vaddr + MEGAPAGE_SIZE <= u64::MAX,
        ph.vaddr + ph.filesz <= u64::MAX,
        ph.offset + ph.filesz <= u64::MAX,
    ensures
        chunk == chunk_in(*ph, vaddr as int, page as int),
{
    let file_end: u64 = ph.vaddr + ph.filesz;
    let step_end: u64 = vaddr + MEGAPAGE_SIZE;
    let start: u64 = if vaddr >= ph.vaddr {
        vaddr
    } else {
        ph.vaddr
    };
    let end: u64 = if step_end <= file_end {
        step_end
    } else {
        file_end
    };
    if start < end {
        Some(
            Chunk {
                page: page as u64,
                within_page: start - vaddr,
                file_offset: ph.offset + (start - ph.vaddr),
                len: end - start,
            },
        )
    } else {
        None
    }
}

/// Adds the chunks of one segment.
fn plan_segment(ph: &ProgramHeader, pages: &Vec<Page>, chunks: &mut Vec<Chunk>)
    requires
        addressable(*ph),
        ph.filesz <= ph.memsz,
        ph.offset + ph.filesz <= u64::MAX,
    ensures
        final(chunks)@ == old(chunks)@ + chunks_in(
            pages@,
            *ph,
            segment_start(*ph),
            segment_end(*ph),
        ),
{
    proof {
        lemma_segment_range(*ph);
    }
    let mem_end: u64 = ph.vaddr + ph.memsz;
    let seg_end: u64 = round_up(mem_end, MEGAPAGE_SIZE);
    let mut v: u64 = round_down(ph.vaddr, MEGAPAGE_SIZE);
    while v < seg_end
        invariant
            seg_end == segment_end(*ph),
            seg_end + MEGAPAGE_SIZE <= u64::MAX + 1,
            v % MEGAPAGE_SIZE == 0,
            seg_end % MEGAPAGE_SIZE == 0,
            ph.vaddr + ph.filesz <= u64::MAX,
            ph.offset + ph.filesz <= u64::MAX,
            old(chunks)@ + chunks_in(pages@, *ph, segment_start(*ph), segment_end(*ph))
                == chunks@ + chunks_in(pages@, *ph, v as int, seg_end as int),
        decreases
                (if v < seg_end {
                    seg_end - v
                } else {
                    0
                }),
    {
        let ghost rest = chunks_in(pages@, *ph, v + MEGAPAGE_SIZE, seg_end as int);
        let ghost before = chunks@;
        match page_index(pages, v) {
            Some(page) => {
                match plan_chunk(ph, v, page) {
                    Some(chunk) => {
                        chunks.push(chunk);
                        assert(before + (seq![chunk] + rest) =~= before.push(chunk) + rest);
                    },
                    None => {
                        assert(Seq::<Chunk>::empty() + rest =~= rest);
                    },
                }
            },
            None => {
                assert(Seq::<Chunk>::empty() + rest =~= rest);
            },
        }
        v = v + MEGAPAGE_SIZE;
    }
    assert(chunks@ + Seq::<Chunk>::empty() =~= chunks@);
}

/// The chunks of the whole image: every file byte of every segment, in the
/// order of the program headers. What no chunk covers stays zero.
pub fn plan_chunks(image: &[u8], header: &ElfHeader, pages: &Vec<Page>) -> (chunks: Vec<Chunk>)
    requires
        pages_of(image@, *header, header.phnum as int) == Ok::<Seq<Page>, LoadError>(pages@),
    ensures
        chunks@ == chunks_of(image@, *header, pages@, header.phnum as int),
{
    let mut chunks: Vec<Chunk> = Vec::new();
    let mut i: u16 = 0;
    assert(image.len() == image@.len());
    while i < header.phnum
        invariant
            i <= header.phnum,
            image@.len() <= usize::MAX,
            pages_of(image@, *header, header.phnum as int) is Ok,
            chunks@ == chunks_of(image@, *header, pages@, i as int),
        decreases header.phnum - i,
    {
        proof {
            lemma_pages_ok(image@, *header, header.phnum as int, i as int);
        }
        match program_header(image, header, i) {
            Ok(Some(ph)) => {
                plan_segment(&ph, pages, &mut chunks);
            },
            _ => {
                assert(chunks@ + Seq::<Chunk>::empty() =~= chunks@);
            },
        }
        i = i + 1;
    }
    chunks
}

} // verus!

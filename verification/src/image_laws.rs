//! What the layout of an image guarantees.

use crate::elf::{program_header_of, ElfError, ElfHeader, ProgramHeader};
use crate::image::{
    add_page, add_pages, addressable, chunk_in, chunks_in, chunks_of, find_page, lemma_find_page,
    lemma_pages_ok, lemma_segment_range, pages_of, page_index, perms_of, plan_chunks, plan_pages,
    segment_end, segment_pages, segment_perms, segment_start, Chunk, LoadError, Page,
    MAX_PROGRAM_MEGAPAGES, PERM_U,
};
use crate::megapage::{page_floor, MEGAPAGE_SIZE};
use vstd::prelude::*;

verus! {

/// The segment that program header `i` describes, if it describes one.
pub open spec fn segment_at(image: Seq<u8>, header: ElfHeader, i: int) -> Option<ProgramHeader> {
    match program_header_of(image, header, i) {
        Ok(Some(ph)) => Some(ph),
        _ => None,
    }
}

/// The segment's memory, rounded out to pages, covers the page at `vaddr`.
pub open spec fn touches(ph: ProgramHeader, vaddr: int) -> bool {
    segment_start(ph) <= vaddr < segment_end(ph)
}

/// Program header `i` describes a segment that touches the page at `vaddr`.
pub open spec fn touched_by(image: Seq<u8>, header: ElfHeader, i: int, vaddr: int) -> bool {
    segment_at(image, header, i) matches Some(ph) && touches(ph, vaddr)
}

/// Program header `i` describes a segment that touches the page at `vaddr` and
/// has one of the permissions in `mask`.
pub open spec fn permitted_by(
    image: Seq<u8>,
    header: ElfHeader,
    i: int,
    vaddr: int,
    mask: u64,
) -> bool {
    segment_at(image, header, i) matches Some(ph) && touches(ph, vaddr) && perms_of(ph.flags)
        & mask != 0
}

/// A table of few, aligned, distinct pages.
pub open spec fn table_ok(pages: Seq<Page>) -> bool {
    &&& pages.len() <= MAX_PROGRAM_MEGAPAGES
    &&& forall|k: int|
        0 <= k < pages.len() ==> (#[trigger] pages[k]).vaddr % MEGAPAGE_SIZE == 0
    &&& forall|j: int, k: int|
        0 <= j < k < pages.len() ==> (#[trigger] pages[j]).vaddr != (#[trigger] pages[k]).vaddr
}

/// The table holds the page at `vaddr`.
pub open spec fn holds(pages: Seq<Page>, vaddr: int) -> bool {
    exists|k: int| 0 <= k < pages.len() && (#[trigger] pages[k]).vaddr == vaddr
}

/// The table grants one of the permissions in `mask` on the page at `vaddr`.
pub open spec fn grants(pages: Seq<Page>, vaddr: int, mask: u64) -> bool {
    exists|k: int|
        0 <= k < pages.len() && (#[trigger] pages[k]).vaddr == vaddr && pages[k].perms & mask != 0
}

proof fn lemma_or_mask(a: u64, b: u64, mask: u64)
    ensures
        (a | b) & mask != 0 <==> a & mask != 0 || b & mask != 0,
{
    assert((a | b) & mask == (a & mask) | (b & mask)) by (bit_vector);
    let x = a & mask;
    let y = b & mask;
    assert(x | y != 0 <==> x != 0 || y != 0) by (bit_vector);
}

/// Recording one page.
proof fn lemma_add_page(pages: Seq<Page>, vaddr: int, perms: u64, other: int, mask: u64)
    requires
        table_ok(pages),
        0 <= vaddr <= u64::MAX,
        vaddr % (MEGAPAGE_SIZE as int) == 0,
        add_page(pages, vaddr, perms) is Ok,
    ensures
        ({
            let after = add_page(pages, vaddr, perms)->Ok_0;
            &&& table_ok(after)
            &&& holds(after, other) <==> holds(pages, other) || other == vaddr
            &&& grants(after, other, mask) <==> grants(pages, other, mask) || (other == vaddr
                && perms & mask != 0)
        }),
{
    let after = add_page(pages, vaddr, perms)->Ok_0;
    lemma_find_page(pages, vaddr, 0);
    match find_page(pages, vaddr, 0) {
        Some(i) => {
            lemma_or_mask(pages[i].perms, perms, mask);
            assert(forall|k: int|
                0 <= k < pages.len() ==> (#[trigger] after[k]).vaddr == pages[k].vaddr);
            assert(forall|k: int|
                0 <= k < pages.len() && k != i ==> #[trigger] after[k] == pages[k]);
            if holds(pages, other) {
                let k = choose|k: int| 0 <= k < pages.len() && (#[trigger] pages[k]).vaddr == other;
                assert(after[k].vaddr == other);
            }
            if holds(after, other) {
                let k = choose|k: int| 0 <= k < after.len() && (#[trigger] after[k]).vaddr == other;
                assert(pages[k].vaddr == other);
            }
            assert(after[i].vaddr == vaddr);
            if grants(pages, other, mask) {
                let k = choose|k: int|
                    0 <= k < pages.len() && (#[trigger] pages[k]).vaddr == other && pages[k].perms
                        & mask != 0;
                assert(after[k].vaddr == other && after[k].perms & mask != 0);
            }
            if grants(after, other, mask) {
                let k = choose|k: int|
                    0 <= k < after.len() && (#[trigger] after[k]).vaddr == other && after[k].perms
                        & mask != 0;
                assert(pages[k].vaddr == other);
            }
        },
        None => {
            let n = pages.len() as int;
            assert(forall|k: int| 0 <= k < n ==> #[trigger] after[k] == pages[k]);
            assert(after[n].vaddr == vaddr && after[n].perms == perms);
            if holds(pages, other) {
                let k = choose|k: int| 0 <= k < pages.len() && (#[trigger] pages[k]).vaddr == other;
                assert(after[k].vaddr == other);
            }
            if grants(pages, other, mask) {
                let k = choose|k: int|
                    0 <= k < pages.len() && (#[trigger] pages[k]).vaddr == other && pages[k].perms
                        & mask != 0;
                assert(after[k].vaddr == other && after[k].perms & mask != 0);
            }
        },
    }
}

/// Recording the pages of a range.
proof fn lemma_add_pages(
    pages: Seq<Page>,
    vaddr: int,
    end: int,
    perms: u64,
    other: int,
    mask: u64,
)
    requires
        table_ok(pages),
        0 <= vaddr,
        end <= u64::MAX,
        vaddr % (MEGAPAGE_SIZE as int) == 0,
        other % (MEGAPAGE_SIZE as int) == 0,
        add_pages(pages, vaddr, end, perms) is Ok,
    ensures
        ({
            let after = add_pages(pages, vaddr, end, perms)->Ok_0;
            &&& table_ok(after)
            &&& holds(after, other) <==> holds(pages, other) || vaddr <= other < end
            &&& grants(after, other, mask) <==> grants(pages, other, mask) || (vaddr <= other < end
                && perms & mask != 0)
        }),
    decreases
            (if vaddr < end {
                end - vaddr
            } else {
                0
            }),
{
    if vaddr < end {
        lemma_add_page(pages, vaddr, perms, other, mask);
        let more = add_page(pages, vaddr, perms)->Ok_0;
        lemma_add_pages(more, vaddr + MEGAPAGE_SIZE, end, perms, other, mask);
    }
}

/// The table of the first `n` program headers, seen from one page.
proof fn lemma_pages(image: Seq<u8>, header: ElfHeader, n: int, other: int, mask: u64)
    requires
        0 <= n,
        other % (MEGAPAGE_SIZE as int) == 0,
        pages_of(image, header, n) is Ok,
    ensures
        ({
            let pages = pages_of(image, header, n)->Ok_0;
            &&& table_ok(pages)
            &&& holds(pages, other) <==> exists|i: int|
                0 <= i < n && touched_by(image, header, i, other)
            &&& grants(pages, other, mask) <==> exists|i: int|
                0 <= i < n && permitted_by(image, header, i, other, mask)
        }),
    decreases n,
{
    if n > 0 {
        let i = n - 1;
        lemma_pages_ok(image, header, n, i);
        lemma_pages(image, header, i, other, mask);
        let pages = pages_of(image, header, i)->Ok_0;
        match segment_at(image, header, i) {
            Some(ph) => {
                lemma_segment_range(ph);
                lemma_add_pages(
                    pages,
                    segment_start(ph),
                    segment_end(ph),
                    perms_of(ph.flags),
                    other,
                    mask,
                );
            },
            None => {},
        }
        assert((exists|j: int| 0 <= j < n && touched_by(image, header, j, other)) <==> (
        touched_by(image, header, i, other) || exists|j: int|
            0 <= j < i && touched_by(image, header, j, other)));
        assert((exists|j: int| 0 <= j < n && permitted_by(image, header, j, other, mask)) <==> (
        permitted_by(image, header, i, other, mask) || exists|j: int|
            0 <= j < i && permitted_by(image, header, j, other, mask)));
    }
}

/// No megapage is in the table twice, none is misaligned, and there are never
/// more than the table holds.
pub proof fn law_pages_are_distinct(image: Seq<u8>, header: ElfHeader, pages: Seq<Page>)
    requires
        pages_of(image, header, header.phnum as int) == Ok::<Seq<Page>, LoadError>(pages),
    ensures
        table_ok(pages),
{
    lemma_pages(image, header, header.phnum as int, 0, 0);
}

/// A megapage is in the table exactly if some segment touches it.
pub proof fn law_pages_are_those_touched(
    image: Seq<u8>,
    header: ElfHeader,
    pages: Seq<Page>,
    vaddr: int,
)
    requires
        pages_of(image, header, header.phnum as int) == Ok::<Seq<Page>, LoadError>(pages),
        vaddr % (MEGAPAGE_SIZE as int) == 0,
    ensures
        holds(pages, vaddr) <==> exists|i: int|
            0 <= i < header.phnum && touched_by(image, header, i, vaddr),
{
    lemma_pages(image, header, header.phnum as int, vaddr, 0);
}

/// A page has exactly the permissions that some segment touching it has: none
/// is lost where two segments share a page, and none is added.
pub proof fn law_page_permissions_are_the_union(
    image: Seq<u8>,
    header: ElfHeader,
    pages: Seq<Page>,
    k: int,
    mask: u64,
)
    requires
        pages_of(image, header, header.phnum as int) == Ok::<Seq<Page>, LoadError>(pages),
        0 <= k < pages.len(),
    ensures
        pages[k].perms & mask != 0 <==> exists|i: int|
            0 <= i < header.phnum && permitted_by(image, header, i, pages[k].vaddr as int, mask),
{
    law_pages_are_distinct(image, header, pages);
    let vaddr = pages[k].vaddr as int;
    lemma_pages(image, header, header.phnum as int, vaddr, mask);
    if grants(pages, vaddr, mask) {
        let j = choose|j: int|
            0 <= j < pages.len() && (#[trigger] pages[j]).vaddr == vaddr && pages[j].perms & mask
                != 0;
        assert(j == k);
    }
}

/// Every page of a program is open to user mode.
pub proof fn law_pages_are_user_pages(
    image: Seq<u8>,
    header: ElfHeader,
    pages: Seq<Page>,
    k: int,
)
    requires
        pages_of(image, header, header.phnum as int) == Ok::<Seq<Page>, LoadError>(pages),
        0 <= k < pages.len(),
    ensures
        pages[k].perms & PERM_U != 0,
{
    let vaddr = pages[k].vaddr as int;
    law_pages_are_distinct(image, header, pages);
    law_pages_are_those_touched(image, header, pages, vaddr);
    law_page_permissions_are_the_union(image, header, pages, k, PERM_U);
    assert(holds(pages, vaddr));
    let i = choose|i: int| 0 <= i < header.phnum && touched_by(image, header, i, vaddr);
    let ph = segment_at(image, header, i)->0;
    lemma_user_perm(ph.flags);
    assert(permitted_by(image, header, i, vaddr, PERM_U));
}

proof fn lemma_user_perm(flags: u32)
    ensures
        perms_of(flags) & PERM_U != 0,
{
    assert(forall|r: u64, w: u64, x: u64| #[trigger] (8u64 | r | w | x) & 8u64 != 0)
        by (bit_vector);
}

/// The chunk writes byte `offset` of page `page`.
pub open spec fn writes(chunk: Chunk, page: int, offset: int) -> bool {
    chunk.page == page && chunk.within_page <= offset < chunk.within_page + chunk.len
}

/// Byte `offset` of page `page`, which was `init`, after the chunks have been
/// copied in order.
pub open spec fn copied_byte(
    image: Seq<u8>,
    chunks: Seq<Chunk>,
    page: int,
    offset: int,
    init: u8,
) -> u8
    decreases chunks.len(),
{
    if chunks.len() == 0 {
        init
    } else if writes(chunks.last(), page, offset) {
        image[chunks.last().file_offset + (offset - chunks.last().within_page)]
    } else {
        copied_byte(image, chunks.drop_last(), page, offset, init)
    }
}

/// The segment has a file byte for the address.
pub open spec fn backs(ph: ProgramHeader, addr: int) -> bool {
    ph.vaddr <= addr < ph.vaddr + ph.filesz
}

/// What the first `n` program headers say is at an address: the file byte of
/// the last segment that has one there, and zero where none has.
pub open spec fn program_byte(image: Seq<u8>, header: ElfHeader, n: int, addr: int) -> u8
    decreases n,
{
    if n <= 0 {
        0
    } else {
        match segment_at(image, header, n - 1) {
            Some(ph) if backs(ph, addr) => image[ph.offset + (addr - ph.vaddr)],
            _ => program_byte(image, header, n - 1, addr),
        }
    }
}

/// Copying more chunks goes on from what the first ones left.
proof fn lemma_copied_concat(
    image: Seq<u8>,
    one: Seq<Chunk>,
    two: Seq<Chunk>,
    page: int,
    offset: int,
    init: u8,
)
    ensures
        copied_byte(image, one + two, page, offset, init) == copied_byte(
            image,
            two,
            page,
            offset,
            copied_byte(image, one, page, offset, init),
        ),
    decreases two.len(),
{
    if two.len() == 0 {
        assert(one + two =~= one);
    } else {
        assert((one + two).drop_last() =~= one + two.drop_last());
        lemma_copied_concat(image, one, two.drop_last(), page, offset, init);
    }
}

/// Copying the chunks of one segment in `[vaddr, end)`.
proof fn lemma_copied_segment(
    image: Seq<u8>,
    pages: Seq<Page>,
    ph: ProgramHeader,
    vaddr: int,
    end: int,
    k: int,
    offset: int,
    init: u8,
)
    requires
        table_ok(pages),
        0 <= k < pages.len(),
        0 <= offset < MEGAPAGE_SIZE,
        addressable(ph),
        ph.filesz <= ph.memsz,
        ph.offset + ph.filesz <= u64::MAX,
        0 <= vaddr,
        end <= u64::MAX,
        vaddr % (MEGAPAGE_SIZE as int) == 0,
        end % (MEGAPAGE_SIZE as int) == 0,
    ensures
        copied_byte(image, chunks_in(pages, ph, vaddr, end), k, offset, init) == (if vaddr
            <= pages[k].vaddr < end && backs(ph, pages[k].vaddr + offset) {
            image[ph.offset + (pages[k].vaddr + offset - ph.vaddr)]
        } else {
            init
        }),
    decreases
            (if vaddr < end {
                end - vaddr
            } else {
                0
            }),
{
    if vaddr < end {
        let rest = chunks_in(pages, ph, vaddr + MEGAPAGE_SIZE, end);
        lemma_find_page(pages, vaddr, 0);
        let first = match find_page(pages, vaddr, 0) {
            Some(page) => match chunk_in(ph, vaddr, page) {
                Some(chunk) => seq![chunk],
                None => Seq::empty(),
            },
            None => Seq::empty(),
        };
        assert(chunks_in(pages, ph, vaddr, end) == first + rest);
        let middle = copied_byte(image, first, k, offset, init);
        lemma_copied_concat(image, first, rest, k, offset, init);
        lemma_copied_segment(
            image,
            pages,
            ph,
            vaddr + MEGAPAGE_SIZE,
            end,
            k,
            offset,
            middle,
        );
        if first.len() > 0 {
            assert(first.drop_last() =~= Seq::<Chunk>::empty());
        }
        assert(copied_byte(image, Seq::<Chunk>::empty(), k, offset, init) == init);
        match find_page(pages, vaddr, 0) {
            Some(page) => {
                if vaddr == pages[k].vaddr {
                    assert(page == k);
                    if backs(ph, vaddr + offset) {
                        assert(writes(first.last(), k, offset));
                        assert(first.last().file_offset + (offset - first.last().within_page)
                            == ph.offset + (vaddr + offset - ph.vaddr));
                    } else {
                        assert(first.len() > 0 ==> !writes(first.last(), k, offset));
                    }
                } else {
                    assert(page != k);
                    assert(first.len() > 0 ==> first.last().page != k);
                }
            },
            None => {
                assert(vaddr != pages[k].vaddr);
            },
        }
        assert(vaddr < pages[k].vaddr ==> vaddr + MEGAPAGE_SIZE <= pages[k].vaddr);
    }
}

/// The table and the chunks together put every byte where the image says.
proof fn lemma_image_bytes(
    image: Seq<u8>,
    header: ElfHeader,
    pages: Seq<Page>,
    n: int,
    k: int,
    offset: int,
)
    requires
        image.len() <= u64::MAX,
        pages_of(image, header, header.phnum as int) == Ok::<Seq<Page>, LoadError>(pages),
        table_ok(pages),
        0 <= n <= header.phnum,
        0 <= k < pages.len(),
        0 <= offset < MEGAPAGE_SIZE,
    ensures
        copied_byte(image, chunks_of(image, header, pages, n), k, offset, 0) == program_byte(
            image,
            header,
            n,
            pages[k].vaddr + offset,
        ),
    decreases n,
{
    if n > 0 {
        let before = chunks_of(image, header, pages, n - 1);
        let init = copied_byte(image, before, k, offset, 0);
        lemma_pages_ok(image, header, header.phnum as int, n - 1);
        lemma_image_bytes(image, header, pages, n - 1, k, offset);
        match segment_at(image, header, n - 1) {
            Some(ph) => {
                lemma_segment_range(ph);
                let chunks = chunks_in(pages, ph, segment_start(ph), segment_end(ph));
                lemma_copied_concat(image, before, chunks, k, offset, 0);
                lemma_copied_segment(
                    image,
                    pages,
                    ph,
                    segment_start(ph),
                    segment_end(ph),
                    k,
                    offset,
                    init,
                );
            },
            None => {
                assert(before + Seq::<Chunk>::empty() =~= before);
            },
        }
    }
}

/// In zeroed pages, copying the chunks in order leaves at every address of
/// every page exactly what the image says: the file byte of the last segment
/// that has one there, and zero elsewhere.
pub proof fn law_copied_pages_hold_the_image(
    image: Seq<u8>,
    header: ElfHeader,
    pages: Seq<Page>,
    k: int,
    offset: int,
)
    requires
        image.len() <= u64::MAX,
        pages_of(image, header, header.phnum as int) == Ok::<Seq<Page>, LoadError>(pages),
        0 <= k < pages.len(),
        0 <= offset < MEGAPAGE_SIZE,
    ensures
        copied_byte(
            image,
            chunks_of(image, header, pages, header.phnum as int),
            k,
            offset,
            0,
        ) == program_byte(image, header, header.phnum as int, pages[k].vaddr + offset),
{
    law_pages_are_distinct(image, header, pages);
    lemma_image_bytes(image, header, pages, header.phnum as int, k, offset);
}

/// The chunk names a page of the table, stays inside it and reads bytes of
/// the image only.
pub open spec fn chunk_ok(chunk: Chunk, pages: Seq<Page>, image: Seq<u8>) -> bool {
    &&& chunk.page < pages.len()
    &&& chunk.len > 0
    &&& chunk.within_page + chunk.len <= MEGAPAGE_SIZE
    &&& chunk.file_offset + chunk.len <= image.len()
}

/// All chunks are in bounds.
pub open spec fn chunks_ok(chunks: Seq<Chunk>, pages: Seq<Page>, image: Seq<u8>) -> bool {
    forall|i: int| 0 <= i < chunks.len() ==> chunk_ok(#[trigger] chunks[i], pages, image)
}

proof fn lemma_chunks_in_ok(
    image: Seq<u8>,
    pages: Seq<Page>,
    ph: ProgramHeader,
    vaddr: int,
    end: int,
)
    requires
        image.len() <= u64::MAX,
        pages.len() <= u64::MAX,
        ph.filesz <= ph.memsz,
        ph.offset + ph.filesz <= image.len(),
        0 <= vaddr,
        end <= u64::MAX,
    ensures
        chunks_ok(chunks_in(pages, ph, vaddr, end), pages, image),
    decreases
            (if vaddr < end {
                end - vaddr
            } else {
                0
            }),
{
    if vaddr < end {
        lemma_find_page(pages, vaddr, 0);
        lemma_chunks_in_ok(image, pages, ph, vaddr + MEGAPAGE_SIZE, end);
        let rest = chunks_in(pages, ph, vaddr + MEGAPAGE_SIZE, end);
        let all = chunks_in(pages, ph, vaddr, end);
        let n = all.len() - rest.len();
        assert forall|i: int| 0 <= i < all.len() implies chunk_ok(
            #[trigger] all[i],
            pages,
            image,
        ) by {
            if i >= n {
                assert(all[i] == rest[i - n]);
            }
        }
    }
}

proof fn lemma_chunks_ok(image: Seq<u8>, header: ElfHeader, pages: Seq<Page>, n: int)
    requires
        image.len() <= u64::MAX,
        pages_of(image, header, header.phnum as int) == Ok::<Seq<Page>, LoadError>(pages),
        pages.len() <= MAX_PROGRAM_MEGAPAGES,
        0 <= n <= header.phnum,
    ensures
        chunks_ok(chunks_of(image, header, pages, n), pages, image),
    decreases n,
{
    if n > 0 {
        lemma_chunks_ok(image, header, pages, n - 1);
        lemma_pages_ok(image, header, header.phnum as int, n - 1);
        let before = chunks_of(image, header, pages, n - 1);
        let all = chunks_of(image, header, pages, n);
        match segment_at(image, header, n - 1) {
            Some(ph) => {
                lemma_segment_range(ph);
                lemma_chunks_in_ok(image, pages, ph, segment_start(ph), segment_end(ph));
                let last = chunks_in(pages, ph, segment_start(ph), segment_end(ph));
                assert(all == before + last);
                assert forall|i: int| 0 <= i < all.len() implies chunk_ok(
                    #[trigger] all[i],
                    pages,
                    image,
                ) by {
                    if i < before.len() {
                        assert(all[i] == before[i]);
                    } else {
                        assert(all[i] == last[i - before.len()]);
                    }
                }
            },
            None => {
                assert(all =~= before);
            },
        }
    }
}

/// Every chunk lies in a page of the table and copies bytes of the image: no
/// copy runs past a frame or past the file.
pub proof fn law_chunks_stay_in_bounds(
    image: Seq<u8>,
    header: ElfHeader,
    pages: Seq<Page>,
)
    requires
        image.len() <= u64::MAX,
        pages_of(image, header, header.phnum as int) == Ok::<Seq<Page>, LoadError>(pages),
    ensures
        chunks_ok(chunks_of(image, header, pages, header.phnum as int), pages, image),
{
    law_pages_are_distinct(image, header, pages);
    lemma_chunks_ok(image, header, pages, header.phnum as int);
}

/// Every address of a segment's memory lies in a page of the table that
/// grants at least the segment's permissions.
pub proof fn law_segment_memory_is_mapped(
    image: Seq<u8>,
    header: ElfHeader,
    pages: Seq<Page>,
    i: int,
    ph: ProgramHeader,
    addr: int,
    mask: u64,
) -> (k: int)
    requires
        pages_of(image, header, header.phnum as int) == Ok::<Seq<Page>, LoadError>(pages),
        0 <= i < header.phnum,
        segment_at(image, header, i) == Some(ph),
        ph.vaddr <= addr < ph.vaddr + ph.memsz,
    ensures
        0 <= k < pages.len(),
        pages[k].vaddr <= addr < pages[k].vaddr + MEGAPAGE_SIZE,
        perms_of(ph.flags) & mask != 0 ==> pages[k].perms & mask != 0,
{
    let vaddr = page_floor(addr);
    lemma_pages_ok(image, header, header.phnum as int, i);
    lemma_segment_range(ph);
    assert(touched_by(image, header, i, vaddr));
    law_pages_are_those_touched(image, header, pages, vaddr);
    let k = choose|k: int| 0 <= k < pages.len() && (#[trigger] pages[k]).vaddr == vaddr;
    law_page_permissions_are_the_union(image, header, pages, k, mask);
    if perms_of(ph.flags) & mask != 0 {
        assert(permitted_by(image, header, i, vaddr, mask));
    }
    k
}

/// Flag and permission bits say the same, each in its own order: read is 4 as a
/// flag and 1 as a permission, write is 2 as both, execute is 1 and 4. User
/// access, 8, is always there, and there are no other permissions.
proof fn lemma_perm_bits(flags: u32)
    ensures
        perms_of(flags) & 1 != 0 <==> flags & 4 != 0,
        perms_of(flags) & 2 != 0 <==> flags & 2 != 0,
        perms_of(flags) & 4 != 0 <==> flags & 1 != 0,
        perms_of(flags) & 8 != 0,
        perms_of(flags) & !15u64 == 0,
{
    let r: u64 = if flags & 4 != 0 {
        1
    } else {
        0
    };
    let w: u64 = if flags & 2 != 0 {
        2
    } else {
        0
    };
    let x: u64 = if flags & 1 != 0 {
        4
    } else {
        0
    };
    let all = 8u64 | r | w | x;
    assert(all & 1 != 0 <==> r == 1) by (bit_vector)
        requires
            all == 8u64 | r | w | x,
            r == 0 || r == 1,
            w == 0 || w == 2,
            x == 0 || x == 4,
    ;
    assert(all & 2 != 0 <==> w == 2) by (bit_vector)
        requires
            all == 8u64 | r | w | x,
            r == 0 || r == 1,
            w == 0 || w == 2,
            x == 0 || x == 4,
    ;
    assert(all & 4 != 0 <==> x == 4) by (bit_vector)
        requires
            all == 8u64 | r | w | x,
            r == 0 || r == 1,
            w == 0 || w == 2,
            x == 0 || x == 4,
    ;
    assert(all & 8 != 0 && all & !15u64 == 0) by (bit_vector)
        requires
            all == 8u64 | r | w | x,
            r == 0 || r == 1,
            w == 0 || w == 2,
            x == 0 || x == 4,
    ;
    assert(perms_of(flags) == all);
}

/// A segment may be read, written and executed exactly if its flags 4, 2 and 1
/// say so: permissions 1, 2 and 4. User mode, permission 8, has access always,
/// and there is no other permission.
pub proof fn law_permissions_follow_the_flags(ph: &ProgramHeader, perms: u64)
    requires
        call_ensures(segment_perms, (ph,), perms),
    ensures
        perms & 1 != 0 <==> ph.flags & 4 != 0,
        perms & 2 != 0 <==> ph.flags & 2 != 0,
        perms & 4 != 0 <==> ph.flags & 1 != 0,
        perms & 8 != 0,
        perms & !15u64 == 0,
{
    lemma_perm_bits(ph.flags);
}

/// The segment's memory and the two megabytes from `vaddr` on have an address in
/// common, or the segment is empty and lies strictly inside them.
pub open spec fn overlaps(ph: ProgramHeader, vaddr: int) -> bool {
    vaddr < ph.vaddr + ph.memsz && ph.vaddr < vaddr + 0x20_0000
}

/// Program header `i` describes a segment that reaches into the page at `vaddr`.
pub open spec fn reached_by(image: Seq<u8>, header: ElfHeader, i: int, vaddr: int) -> bool {
    segment_at(image, header, i) matches Some(ph) && overlaps(ph, vaddr)
}

/// Program header `i` describes a segment with this flag that reaches into the
/// page at `vaddr`.
pub open spec fn flagged_by(
    image: Seq<u8>,
    header: ElfHeader,
    i: int,
    vaddr: int,
    flag: u32,
) -> bool {
    segment_at(image, header, i) matches Some(ph) && overlaps(ph, vaddr) && ph.flags & flag != 0
}

/// Some segment with this flag reaches into the page at `vaddr`.
pub open spec fn flagged(image: Seq<u8>, header: ElfHeader, vaddr: int, flag: u32) -> bool {
    exists|i: int| 0 <= i < header.phnum && flagged_by(image, header, i, vaddr, flag)
}

proof fn lemma_touches_overlaps(ph: ProgramHeader, vaddr: int)
    requires
        vaddr % (MEGAPAGE_SIZE as int) == 0,
    ensures
        touches(ph, vaddr) <==> overlaps(ph, vaddr),
{
}

proof fn lemma_flagged(
    image: Seq<u8>,
    header: ElfHeader,
    vaddr: int,
    perm: u64,
    flag: u32,
)
    requires
        vaddr % (MEGAPAGE_SIZE as int) == 0,
        forall|f: u32| #[trigger] perms_of(f) & perm != 0 <==> f & flag != 0,
    ensures
        flagged(image, header, vaddr, flag) <==> exists|i: int|
            0 <= i < header.phnum && permitted_by(image, header, i, vaddr, perm),
{
    assert forall|i: int| flagged_by(image, header, i, vaddr, flag) == #[trigger] permitted_by(
        image,
        header,
        i,
        vaddr,
        perm,
    ) by {
        if let Some(ph) = segment_at(image, header, i) {
            lemma_touches_overlaps(ph, vaddr);
            assert(perms_of(ph.flags) & perm != 0 <==> ph.flags & flag != 0);
        }
    }
    if flagged(image, header, vaddr, flag) {
        let i = choose|i: int|
            0 <= i < header.phnum && flagged_by(image, header, i, vaddr, flag);
        assert(permitted_by(image, header, i, vaddr, perm));
    }
    if exists|i: int| 0 <= i < header.phnum && permitted_by(image, header, i, vaddr, perm) {
        let i = choose|i: int|
            0 <= i < header.phnum && permitted_by(image, header, i, vaddr, perm);
        assert(flagged_by(image, header, i, vaddr, flag));
    }
}

/// The table has a page for just those megapages that some segment's memory
/// reaches into, each once.
pub proof fn law_table_covers_the_segments(
    image: &[u8],
    header: &ElfHeader,
    pages: Vec<Page>,
    vaddr: int,
)
    requires
        call_ensures(plan_pages, (image, header), Ok(pages)),
        vaddr % 0x20_0000 == 0,
    ensures
        holds(pages@, vaddr) <==> exists|i: int|
            0 <= i < header.phnum && reached_by(image@, *header, i, vaddr),
        pages@.len() <= 8,
        forall|k: int| 0 <= k < pages@.len() ==> (#[trigger] pages@[k]).vaddr % 0x20_0000 == 0,
        forall|j: int, k: int|
            0 <= j < k < pages@.len() ==> (#[trigger] pages@[j]).vaddr != (
            #[trigger] pages@[k]).vaddr,
{
    law_pages_are_distinct(image@, *header, pages@);
    law_pages_are_those_touched(image@, *header, pages@, vaddr);
    assert forall|i: int| #[trigger] touched_by(image@, *header, i, vaddr) == reached_by(
        image@,
        *header,
        i,
        vaddr,
    ) by {
        if let Some(ph) = segment_at(image@, *header, i) {
            lemma_touches_overlaps(ph, vaddr);
        }
    }
    if exists|i: int| 0 <= i < header.phnum && reached_by(image@, *header, i, vaddr) {
        let i = choose|i: int| 0 <= i < header.phnum && reached_by(image@, *header, i, vaddr);
        assert(touched_by(image@, *header, i, vaddr));
    }
}

/// A page can be read, written and executed exactly if some segment that
/// reaches into it can, by its flags; user mode has access; and there is no
/// other permission.
pub proof fn law_page_permissions_follow_the_flags(
    image: &[u8],
    header: &ElfHeader,
    pages: Vec<Page>,
    k: int,
)
    requires
        call_ensures(plan_pages, (image, header), Ok(pages)),
        0 <= k < pages@.len(),
    ensures
        pages@[k].perms & 1 != 0 <==> flagged(image@, *header, pages@[k].vaddr as int, 4),
        pages@[k].perms & 2 != 0 <==> flagged(image@, *header, pages@[k].vaddr as int, 2),
        pages@[k].perms & 4 != 0 <==> flagged(image@, *header, pages@[k].vaddr as int, 1),
        pages@[k].perms & 8 != 0,
        pages@[k].perms & !15u64 == 0,
{
    let v = pages@[k].vaddr as int;
    law_pages_are_distinct(image@, *header, pages@);
    assert forall|f: u32| #[trigger] perms_of(f) & 1 != 0 <==> f & 4 != 0 by {
        lemma_perm_bits(f);
    }
    assert forall|f: u32| #[trigger] perms_of(f) & 2 != 0 <==> f & 2 != 0 by {
        lemma_perm_bits(f);
    }
    assert forall|f: u32| #[trigger] perms_of(f) & 4 != 0 <==> f & 1 != 0 by {
        lemma_perm_bits(f);
    }
    lemma_flagged(image@, *header, v, 1, 4);
    lemma_flagged(image@, *header, v, 2, 2);
    lemma_flagged(image@, *header, v, 4, 1);
    law_page_permissions_are_the_union(image@, *header, pages@, k, 1);
    law_page_permissions_are_the_union(image@, *header, pages@, k, 2);
    law_page_permissions_are_the_union(image@, *header, pages@, k, 4);
    law_page_permissions_are_the_union(image@, *header, pages@, k, !15u64);
    law_pages_are_user_pages(image@, *header, pages@, k);
    if exists|i: int| 0 <= i < header.phnum && permitted_by(image@, *header, i, v, !15u64) {
        let i = choose|i: int|
            0 <= i < header.phnum && permitted_by(image@, *header, i, v, !15u64);
        lemma_perm_bits(segment_at(image@, *header, i)->0.flags);
    }
}

/// Where the pages of a range cannot all be recorded, the table is full and one
/// of them is not in it.
proof fn lemma_table_is_full(pages: Seq<Page>, vaddr: int, end: int, perms: u64) -> (r: (
    Seq<Page>,
    int,
))
    requires
        table_ok(pages),
        0 <= vaddr,
        end <= u64::MAX,
        vaddr % (MEGAPAGE_SIZE as int) == 0,
        add_pages(pages, vaddr, end, perms) is Err,
    ensures
        add_pages(pages, vaddr, end, perms) == Err::<Seq<Page>, LoadError>(
            LoadError::TooManyMegapages,
        ),
        table_ok(r.0),
        r.0.len() == 8,
        vaddr <= r.1 < end,
        r.1 % (MEGAPAGE_SIZE as int) == 0,
        !holds(r.0, r.1),
        forall|v: int|
            #[trigger] holds(r.0, v) ==> holds(pages, v) || (vaddr <= v < end && v % (
            MEGAPAGE_SIZE as int) == 0),
    decreases
            (if vaddr < end {
                end - vaddr
            } else {
                0
            }),
{
    lemma_find_page(pages, vaddr, 0);
    match add_page(pages, vaddr, perms) {
        Err(_) => (pages, vaddr),
        Ok(more) => {
            lemma_add_page(pages, vaddr, perms, vaddr, 0);
            let r = lemma_table_is_full(more, vaddr + MEGAPAGE_SIZE, end, perms);
            assert forall|v: int| #[trigger] holds(r.0, v) implies holds(pages, v) || (vaddr <= v
                < end && v % (MEGAPAGE_SIZE as int) == 0) by {
                lemma_add_page(pages, vaddr, perms, v, 0);
            }
            r
        },
    }
}

/// Nothing is wrong with program header `i`: it can be read, and if it describes
/// a segment, that ends two megabytes or more before the end of the addresses.
pub open spec fn header_fine(image: Seq<u8>, header: ElfHeader, i: int) -> bool {
    &&& program_header_of(image, header, i) is Ok
    &&& segment_at(image, header, i) matches Some(ph) ==> ph.vaddr + ph.memsz
        <= 0xFFFF_FFFF_FFE0_0000
}

/// Nine different megapages are reached into by the segments of the program
/// headers up to `last`.
pub open spec fn nine_pages(image: Seq<u8>, header: ElfHeader, last: int, vaddrs: Seq<int>) -> bool {
    &&& vaddrs.len() == 9
    &&& forall|k: int|
        0 <= k < 9 ==> #[trigger] vaddrs[k] % 0x20_0000 == 0 && exists|i: int|
            0 <= i <= last && reached_by(image, header, i, vaddrs[k])
    &&& forall|j: int, k: int| 0 <= j < k < 9 ==> #[trigger] vaddrs[j] != #[trigger] vaddrs[k]
}

/// Why there is no table: program header `i` is the first with anything wrong,
/// and this is what.
pub open spec fn refused_at(
    image: Seq<u8>,
    header: ElfHeader,
    i: int,
    error: LoadError,
) -> bool {
    &&& forall|j: int| 0 <= j < i ==> #[trigger] header_fine(image, header, j)
    &&& match error {
        LoadError::ProgramHeader(e) => program_header_of(image, header, i) == Err::<
            Option<ProgramHeader>,
            ElfError,
        >(e),
        LoadError::AddressOverflow => segment_at(image, header, i) matches Some(ph) && ph.vaddr
            + ph.memsz > 0xFFFF_FFFF_FFE0_0000,
        LoadError::TooManyMegapages => header_fine(image, header, i) && exists|vaddrs: Seq<int>|
            nine_pages(image, header, i, vaddrs),
        LoadError::Header(_) => false,
    }
}

proof fn lemma_refused(image: Seq<u8>, header: ElfHeader, n: int) -> (i: int)
    requires
        0 <= n,
        pages_of(image, header, n) is Err,
    ensures
        0 <= i < n,
        refused_at(image, header, i, pages_of(image, header, n)->Err_0),
    decreases n,
{
    let last = n - 1;
    if pages_of(image, header, last) is Err {
        lemma_refused(image, header, last)
    } else {
        assert forall|j: int| 0 <= j < last implies #[trigger] header_fine(image, header, j) by {
            lemma_pages_ok(image, header, last, j);
        }
        let pages = pages_of(image, header, last)->Ok_0;
        if let Some(ph) = segment_at(image, header, last) {
            if addressable(ph) {
                lemma_segment_range(ph);
                lemma_pages(image, header, last, 0, 0);
                let (full, v) = lemma_table_is_full(
                    pages,
                    segment_start(ph),
                    segment_end(ph),
                    perms_of(ph.flags),
                );
                let vaddrs = Seq::new(8, |k: int| full[k].vaddr as int).push(v);
                lemma_touches_overlaps(ph, v);
                assert(reached_by(image, header, last, v));
                assert forall|k: int| 0 <= k < 9 implies #[trigger] vaddrs[k] % 0x20_0000 == 0
                    && exists|i: int| 0 <= i <= last && reached_by(image, header, i, vaddrs[k]) by {
                    if k < 8 {
                        let a = full[k].vaddr as int;
                        assert(vaddrs[k] == a);
                        assert(holds(full, a));
                        if holds(pages, a) {
                            lemma_pages(image, header, last, a, 0);
                            let i = choose|i: int|
                                0 <= i < last && touched_by(image, header, i, a);
                            lemma_touches_overlaps(segment_at(image, header, i)->0, a);
                            assert(reached_by(image, header, i, a));
                        } else {
                            lemma_touches_overlaps(ph, a);
                            assert(reached_by(image, header, last, a));
                        }
                    }
                }
                assert forall|j: int, k: int| 0 <= j < k < 9 implies #[trigger] vaddrs[j]
                    != #[trigger] vaddrs[k] by {
                    if k == 8 {
                        assert(full[j].vaddr as int == vaddrs[j]);
                    } else {
                        assert(full[j].vaddr != full[k].vaddr);
                    }
                }
                assert(nine_pages(image, header, last, vaddrs));
            }
        }
        last
    }
}

/// There is no table only for a reason, and the reason is the first there is: a
/// program header that cannot be read, a segment that runs past the end of the
/// addresses, or nine megapages reached into, where eight are the most.
pub proof fn law_images_are_refused_for_a_reason(
    image: &[u8],
    header: &ElfHeader,
    error: LoadError,
) -> (i: int)
    requires
        call_ensures(plan_pages, (image, header), Err(error)),
    ensures
        0 <= i < header.phnum,
        refused_at(image@, *header, i, error),
{
    lemma_refused(image@, *header, header.phnum as int)
}

/// Where there is a table, nothing is wrong with any program header.
pub proof fn law_faulty_images_are_refused(
    image: &[u8],
    header: &ElfHeader,
    pages: Vec<Page>,
    i: int,
)
    requires
        call_ensures(plan_pages, (image, header), Ok(pages)),
        0 <= i < header.phnum,
    ensures
        header_fine(image@, *header, i),
{
    lemma_pages_ok(image@, *header, header.phnum as int, i);
}

/// Copying the chunks, in order, into zeroed pages puts the image where it
/// belongs: at every address of every page is the file byte of the last segment
/// that has one there, and zero where none has.
pub proof fn law_chunks_put_the_image_in_place(
    image: &[u8],
    header: &ElfHeader,
    pages: &Vec<Page>,
    chunks: Vec<Chunk>,
    k: int,
    offset: int,
)
    requires
        image@.len() <= u64::MAX,
        call_ensures(plan_pages, (image, header), Ok(*pages)),
        call_ensures(plan_chunks, (image, header, pages), chunks),
        0 <= k < pages@.len(),
        0 <= offset < 0x20_0000,
    ensures
        copied_byte(image@, chunks@, k, offset, 0) == program_byte(
            image@,
            *header,
            header.phnum as int,
            pages@[k].vaddr + offset,
        ),
        chunks_ok(chunks@, pages@, image@),
{
    law_copied_pages_hold_the_image(image@, *header, pages@, k, offset);
    law_chunks_stay_in_bounds(image@, *header, pages@);
}

/// The pages of a segment start at the megapage that its first byte is in and
/// end with the one that its last byte is in; there are none where the segment
/// runs past the end of the addresses.
pub proof fn law_segments_are_rounded_out(ph: &ProgramHeader, range: Option<(u64, u64)>)
    requires
        call_ensures(segment_pages, (ph,), range),
    ensures
        range is Some <==> ph.vaddr + ph.memsz <= 0xFFFF_FFFF_FFE0_0000,
        range matches Some((start, end)) ==> {
            &&& start % 0x20_0000 == 0
            &&& start <= ph.vaddr < start + 0x20_0000
            &&& end % 0x20_0000 == 0
            &&& end - 0x20_0000 < ph.vaddr + ph.memsz <= end
        },
{
}

/// A page is found exactly if it is in the table, and it is the first there.
pub proof fn law_pages_are_found(pages: &Vec<Page>, vaddr: u64, index: Option<usize>)
    requires
        call_ensures(page_index, (pages, vaddr), index),
    ensures
        index is Some <==> holds(pages@, vaddr as int),
        index matches Some(i) ==> i < pages@.len() && pages@[i as int].vaddr == vaddr && forall|
            j: int,
        |
            0 <= j < i ==> (#[trigger] pages@[j]).vaddr != vaddr,
{
    lemma_find_page(pages@, vaddr as int, 0);
    lemma_first_page(pages@, vaddr as int, 0);
    if let Some(i) = index {
        assert(pages@[i as int].vaddr == vaddr);
    }
}

proof fn lemma_first_page(pages: Seq<Page>, vaddr: int, from: int)
    requires
        0 <= from,
    ensures
        find_page(pages, vaddr, from) matches Some(i) ==> forall|j: int|
            from <= j < i ==> (#[trigger] pages[j]).vaddr != vaddr,
    decreases pages.len() - from,
{
    if from < pages.len() && pages[from].vaddr != vaddr {
        lemma_first_page(pages, vaddr, from + 1);
    }
}

/// Recording a range keeps the pages where they are and appends those that are
/// new, in ascending order.
proof fn lemma_appended_in_order(pages: Seq<Page>, vaddr: int, end: int, perms: u64)
    requires
        0 <= vaddr,
        end <= u64::MAX,
        add_pages(pages, vaddr, end, perms) is Ok,
    ensures
        ({
            let after = add_pages(pages, vaddr, end, perms)->Ok_0;
            &&& pages.len() <= after.len()
            &&& forall|k: int|
                0 <= k < pages.len() ==> (#[trigger] after[k]).vaddr == pages[k].vaddr
            &&& forall|k: int|
                pages.len() <= k < after.len() ==> vaddr <= (#[trigger] after[k]).vaddr < end
                    && !holds(pages, after[k].vaddr as int)
            &&& forall|j: int, k: int|
                pages.len() <= j < k < after.len() ==> (#[trigger] after[j]).vaddr < (
                #[trigger] after[k]).vaddr
        }),
    decreases
            (if vaddr < end {
                end - vaddr
            } else {
                0
            }),
{
    if vaddr < end {
        let more = add_page(pages, vaddr, perms)->Ok_0;
        let after = add_pages(pages, vaddr, end, perms)->Ok_0;
        lemma_find_page(pages, vaddr, 0);
        lemma_appended_in_order(more, vaddr + MEGAPAGE_SIZE, end, perms);
        let n = pages.len() as int;
        assert forall|k: int| 0 <= k < n implies (#[trigger] after[k]).vaddr == pages[k].vaddr by {
            assert(more[k].vaddr == pages[k].vaddr);
        }
        assert forall|k: int| n <= k < after.len() implies vaddr <= (#[trigger] after[k]).vaddr
            < end && !holds(pages, after[k].vaddr as int) by {
            if k < more.len() {
                assert(more[k].vaddr == vaddr);
            } else {
                if holds(pages, after[k].vaddr as int) {
                    let j = choose|j: int|
                        0 <= j < pages.len() && (#[trigger] pages[j]).vaddr == after[k].vaddr;
                    assert(more[j].vaddr == after[k].vaddr);
                }
            }
        }
        assert forall|j: int, k: int| n <= j < k < after.len() implies (#[trigger] after[j]).vaddr
            < (#[trigger] after[k]).vaddr by {
            if j < more.len() {
                assert(more[j].vaddr == vaddr);
            }
        }
    }
}

/// Page `a` comes before page `b`: program header `i` reaches into `a`, and none
/// before it into `b`; and if it reaches into both, `a` is the lower.
pub open spec fn first_reached(
    image: Seq<u8>,
    header: ElfHeader,
    i: int,
    a: int,
    b: int,
) -> bool {
    &&& reached_by(image, header, i, a)
    &&& forall|j: int| 0 <= j < i ==> !#[trigger] reached_by(image, header, j, b)
    &&& reached_by(image, header, i, b) ==> a < b
}

proof fn lemma_order(image: Seq<u8>, header: ElfHeader, n: int, j: int, k: int) -> (i: int)
    requires
        0 <= n,
        pages_of(image, header, n) is Ok,
        0 <= j < k < pages_of(image, header, n)->Ok_0.len(),
    ensures
        0 <= i < n,
        first_reached(
            image,
            header,
            i,
            pages_of(image, header, n)->Ok_0[j].vaddr as int,
            pages_of(image, header, n)->Ok_0[k].vaddr as int,
        ),
    decreases n,
{
    let last = n - 1;
    let pages = pages_of(image, header, n)->Ok_0;
    let a = pages[j].vaddr as int;
    let b = pages[k].vaddr as int;
    lemma_pages_ok(image, header, n, last);
    lemma_pages(image, header, n, 0, 0);
    let before = pages_of(image, header, last)->Ok_0;
    if let Some(ph) = segment_at(image, header, last) {
        lemma_segment_range(ph);
        lemma_pages(image, header, last, 0, 0);
        lemma_appended_in_order(before, segment_start(ph), segment_end(ph), perms_of(ph.flags));
        if k < before.len() {
            lemma_order(image, header, last, j, k)
        } else {
            assert forall|i: int| 0 <= i < last implies !#[trigger] reached_by(
                image,
                header,
                i,
                b,
            ) by {
                lemma_pages(image, header, last, b, 0);
                if reached_by(image, header, i, b) {
                    lemma_touches_overlaps(segment_at(image, header, i)->0, b);
                    assert(touched_by(image, header, i, b));
                }
            }
            if j < before.len() {
                assert(holds(before, a));
                lemma_pages(image, header, last, a, 0);
                let i = choose|i: int| 0 <= i < last && touched_by(image, header, i, a);
                lemma_touches_overlaps(segment_at(image, header, i)->0, a);
                assert(reached_by(image, header, i, a));
                i
            } else {
                lemma_touches_overlaps(ph, a);
                assert(touches(ph, a));
                last
            }
        }
    } else {
        lemma_order(image, header, last, j, k)
    }
}

/// The pages are in the order in which the segments, in theirs, first reach into
/// them, and from the bottom up within one segment.
pub proof fn law_pages_are_in_order_of_first_use(
    image: &[u8],
    header: &ElfHeader,
    pages: Vec<Page>,
    j: int,
    k: int,
) -> (i: int)
    requires
        call_ensures(plan_pages, (image, header), Ok(pages)),
        0 <= j < k < pages@.len(),
    ensures
        0 <= i < header.phnum,
        first_reached(image@, *header, i, pages@[j].vaddr as int, pages@[k].vaddr as int),
{
    lemma_order(image@, *header, header.phnum as int, j, k)
}

} // verus!

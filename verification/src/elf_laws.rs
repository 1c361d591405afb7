//! What an accepted ELF image guarantees.

use crate::bytes::{le_at, le_value};
use crate::elf::{
    field, header_of, parse_header, phdr_start, program_header, program_header_of, read_u16, read_u32,
    read_u64, skipped_type, ElfError, ElfHeader, ProgramHeader, ELF_HEADER_SIZE, PHDR_SIZE, PT_LOAD,
};
use vstd::prelude::*;

verus! {

/// An accepted segment's file bytes lie inside the image and fit in its
/// memory range, so copying them reads no byte from outside and writes none
/// past the segment.
pub proof fn law_accepted_segment_is_inside_the_image(
    image: Seq<u8>,
    header: ElfHeader,
    index: int,
    ph: ProgramHeader,
)
    requires
        program_header_of(image, header, index) == Ok::<Option<ProgramHeader>, ElfError>(Some(ph)),
    ensures
        ph.offset + ph.filesz <= image.len(),
        ph.filesz <= ph.memsz,
{
}

/// The file header is read from the magic, the class, the byte order, the type,
/// the machine, the entry point, and where the program headers are and how many.
/// Nothing else in an image of at least a header's length matters: neither the
/// versions, the ABI, the flags and the section table in the header, nor what
/// follows it.
pub proof fn law_header_reads_only_its_fields(a: Seq<u8>, b: Seq<u8>)
    requires
        a.len() >= ELF_HEADER_SIZE,
        b.len() >= ELF_HEADER_SIZE,
        a.subrange(0, 6) == b.subrange(0, 6),
        a.subrange(0x10, 0x14) == b.subrange(0x10, 0x14),
        a.subrange(0x18, 0x28) == b.subrange(0x18, 0x28),
        a.subrange(0x36, 0x3A) == b.subrange(0x36, 0x3A),
    ensures
        header_of(a) == header_of(b),
{
    assert forall|i: int| 0 <= i < 6 implies #[trigger] a[i] == b[i] by {
        assert(a[i] == a.subrange(0, 6)[i] && b[i] == b.subrange(0, 6)[i]);
    }
    lemma_part_of(a, b, 0x10, 0x14, 0x10, 0x12);
    lemma_part_of(a, b, 0x10, 0x14, 0x12, 0x14);
    lemma_part_of(a, b, 0x18, 0x28, 0x18, 0x20);
    lemma_part_of(a, b, 0x18, 0x28, 0x20, 0x28);
    lemma_part_of(a, b, 0x36, 0x3A, 0x36, 0x38);
    lemma_part_of(a, b, 0x36, 0x3A, 0x38, 0x3A);
}

/// Where two byte strings agree, they agree on every part of it.
proof fn lemma_part_of(a: Seq<u8>, b: Seq<u8>, start: int, end: int, from: int, to: int)
    requires
        0 <= start <= from <= to <= end,
        end <= a.len(),
        end <= b.len(),
        a.subrange(start, end) == b.subrange(start, end),
    ensures
        a.subrange(from, to) == b.subrange(from, to),
{
    assert(a.subrange(from, to) =~= a.subrange(start, end).subrange(from - start, to - start));
    assert(b.subrange(from, to) =~= b.subrange(start, end).subrange(from - start, to - start));
}

/// The declared entry size only says how far apart the program headers are:
/// what is read at one place does not depend on it.
pub proof fn law_entry_size_is_only_a_stride(
    image: Seq<u8>,
    one: ElfHeader,
    other: ElfHeader,
    i: int,
    j: int,
)
    requires
        phdr_start(one, i) == phdr_start(other, j),
    ensures
        program_header_of(image, one, i) == program_header_of(image, other, j),
{
}

/// A program header inside the image is passed over exactly if its type is
/// one of the harmless ones; any other type that is not loadable rejects the
/// image and is named in the error.
pub proof fn law_unknown_segment_types_are_rejected(image: Seq<u8>, header: ElfHeader, index: int)
    requires
        phdr_start(header, index) + PHDR_SIZE <= image.len(),
    ensures
        ({
            let p_type = field(image, phdr_start(header, index), 4);
            let result = program_header_of(image, header, index);
            &&& result == Ok::<Option<ProgramHeader>, ElfError>(None) <==> skipped_type(
                p_type as int,
            )
            &&& !skipped_type(p_type as int) && p_type != PT_LOAD ==> result == Err::<
                Option<ProgramHeader>,
                ElfError,
            >(ElfError::UnsupportedSegmentType(p_type as u32))
        }),
{
}

/// The two bytes at `o`, the low one first, as a number.
pub open spec fn le16(s: Seq<u8>, o: int) -> int {
    s[o] + 0x100 * s[o + 1]
}

/// The four bytes at `o`, the lowest first, as a number.
pub open spec fn le32(s: Seq<u8>, o: int) -> int {
    le16(s, o) + 0x1_0000 * le16(s, o + 2)
}

/// The eight bytes at `o`, the lowest first, as a number.
pub open spec fn le64(s: Seq<u8>, o: int) -> int {
    le32(s, o) + 0x1_0000_0000 * le32(s, o + 4)
}

/// A number is its lowest byte and 256 times the rest.
pub proof fn lemma_le_step(s: Seq<u8>, o: int, n: int)
    requires
        0 <= o,
        0 < n,
        o + n <= s.len(),
    ensures
        le_at(s, o, n) == s[o] + 256 * le_at(s, o + 1, n - 1),
{
    assert(s.subrange(o, o + n).drop_first() =~= s.subrange(o + 1, o + n));
}

/// A field read as digits is the number that its bytes spell.
pub proof fn lemma_le_spelled(s: Seq<u8>, o: int)
    requires
        0 <= o,
    ensures
        o + 2 <= s.len() ==> le_at(s, o, 2) == le16(s, o),
        o + 4 <= s.len() ==> le_at(s, o, 4) == le32(s, o),
        o + 8 <= s.len() ==> le_at(s, o, 8) == le64(s, o),
{
    if o + 2 <= s.len() {
        lemma_le_step(s, o, 2);
        lemma_le_step(s, o + 1, 1);
        assert(s.subrange(o + 2, o + 2) =~= Seq::empty());
        assert(le_value(Seq::<u8>::empty()) == 0);
    }
    if o + 4 <= s.len() {
        lemma_le_step(s, o, 4);
        lemma_le_step(s, o + 1, 3);
        lemma_le_step(s, o + 2, 2);
        lemma_le_step(s, o + 3, 1);
        assert(s.subrange(o + 4, o + 4) =~= Seq::empty());
        assert(le_value(Seq::<u8>::empty()) == 0);
    }
    if o + 8 <= s.len() {
        lemma_le_step(s, o, 8);
        lemma_le_step(s, o + 1, 7);
        lemma_le_step(s, o + 2, 6);
        lemma_le_step(s, o + 3, 5);
        lemma_le_step(s, o + 4, 4);
        lemma_le_step(s, o + 5, 3);
        lemma_le_step(s, o + 6, 2);
        lemma_le_step(s, o + 7, 1);
        assert(s.subrange(o + 8, o + 8) =~= Seq::empty());
        assert(le_value(Seq::<u8>::empty()) == 0);
    }
}

/// The bytes that identify an executable RISC-V image of 64-bit little-endian
/// code: `0x7F`, `ELF`, 2, 1, then the type 2 and the machine 243.
pub open spec fn identifies(s: Seq<u8>) -> bool {
    &&& s.subrange(0, 6) == seq![0x7Fu8, 0x45, 0x4C, 0x46, 2, 1]
    &&& s.subrange(16, 20) == seq![2u8, 0, 243, 0]
}

/// A header is accepted exactly if it is 64 bytes long and identifies the
/// right kind of image; and every field is then the number that its bytes
/// spell, at its place in the header.
pub proof fn law_header_fields_are_where_they_are_written(
    image: &[u8],
    result: Result<ElfHeader, ElfError>,
)
    requires
        call_ensures(parse_header, (image,), result),
    ensures
        result is Ok <==> image@.len() >= 64 && identifies(image@),
        result matches Ok(header) ==> {
            &&& header.entry == le64(image@, 24)
            &&& header.phoff == le64(image@, 32)
            &&& header.phentsize == le16(image@, 54)
            &&& header.phnum == le16(image@, 56)
        },
{
    let s = image@;
    if s.len() >= 64 {
        lemma_le_spelled(s, 0x10);
        lemma_le_spelled(s, 0x12);
        lemma_le_spelled(s, 0x18);
        lemma_le_spelled(s, 0x20);
        lemma_le_spelled(s, 0x36);
        lemma_le_spelled(s, 0x38);
        let a = s.subrange(0, 6);
        let b = s.subrange(16, 20);
        let id = seq![0x7Fu8, 0x45, 0x4C, 0x46, 2, 1];
        let kind = seq![2u8, 0, 243, 0];
        assert(forall|i: int| 0 <= i < 6 ==> #[trigger] a[i] == s[i]);
        assert(forall|i: int| 0 <= i < 4 ==> #[trigger] b[i] == s[16 + i]);
        assert(a[0] == s[0] && a[1] == s[1] && a[2] == s[2] && a[3] == s[3] && a[4] == s[4] && a[5]
            == s[5]);
        assert(b[0] == s[16] && b[1] == s[17] && b[2] == s[18] && b[3] == s[19]);
        if a == id {
            assert(a[0] == id[0] && a[1] == id[1] && a[2] == id[2] && a[3] == id[3] && a[4] == id[4]
                && a[5] == id[5]);
        }
        if b == kind {
            assert(b[0] == kind[0] && b[1] == kind[1] && b[2] == kind[2] && b[3] == kind[3]);
        }
        if result is Ok {
            assert(a =~= id);
            assert(b =~= kind);
        }
    }
}

/// A rejected header is rejected for the first thing that is wrong with it: its
/// length, then its identification from left to right, then its type, then its
/// machine.
pub proof fn law_header_is_rejected_for_the_first_fault(
    image: &[u8],
    result: Result<ElfHeader, ElfError>,
)
    requires
        call_ensures(parse_header, (image,), result),
    ensures
        result matches Err(error) ==> match error {
            ElfError::TooShortForHeader => image@.len() < 64,
            ElfError::BadMagic => image@.len() >= 64 && image@.take(4) != seq![
                0x7Fu8,
                0x45,
                0x4C,
                0x46,
            ],
            ElfError::NotClass64 => image@.take(4) == seq![0x7Fu8, 0x45, 0x4C, 0x46] && image@[4]
                != 2,
            ElfError::NotLittleEndian => image@.take(5) == seq![0x7Fu8, 0x45, 0x4C, 0x46, 2]
                && image@[5] != 1,
            ElfError::NotExecutable => image@.take(6) == seq![0x7Fu8, 0x45, 0x4C, 0x46, 2, 1]
                && le16(image@, 16) != 2,
            ElfError::NotRiscv => image@.take(6) == seq![0x7Fu8, 0x45, 0x4C, 0x46, 2, 1] && le16(
                image@,
                16,
            ) == 2 && le16(image@, 18) != 243,
            _ => false,
        },
{
    let s = image@;
    if s.len() >= 64 {
        lemma_le_spelled(s, 0x10);
        lemma_le_spelled(s, 0x12);
        if result == Err::<ElfHeader, ElfError>(ElfError::BadMagic) && s.take(4) == seq![
            0x7Fu8,
            0x45,
            0x4C,
            0x46,
        ] {
            let id = seq![0x7Fu8, 0x45, 0x4C, 0x46];
            assert(s.take(4)[0] == id[0] && s.take(4)[1] == id[1] && s.take(4)[2] == id[2]
                && s.take(4)[3] == id[3]);
        }
        if has_right_magic(s) {
            assert(s.take(4) =~= seq![0x7Fu8, 0x45, 0x4C, 0x46]);
            if s[4] == 2 {
                assert(s.take(5) =~= seq![0x7Fu8, 0x45, 0x4C, 0x46, 2]);
                if s[5] == 1 {
                    assert(s.take(6) =~= seq![0x7Fu8, 0x45, 0x4C, 0x46, 2, 1]);
                }
            }
        }
    }
}

spec fn has_right_magic(s: Seq<u8>) -> bool {
    s[0] == 0x7F && s[1] == 0x45 && s[2] == 0x4C && s[3] == 0x46
}

/// A loadable segment comes back exactly if its program header lies in the
/// image, says that the segment is to be loaded, and describes a range of the
/// file that is there and fits its memory; and every field is then the number
/// that its bytes spell, at its place in the program header. So a header
/// written from given values is read back as just those values.
pub proof fn law_segment_fields_are_where_they_are_written(
    image: &[u8],
    header: &ElfHeader,
    index: u16,
    result: Result<Option<ProgramHeader>, ElfError>,
)
    requires
        call_ensures(program_header, (image, header, index), result),
    ensures
        ({
            let s = image@;
            let start = header.phoff + index * header.phentsize;
            let inside = start + 56 <= s.len();
            let loadable = inside && le32(s, start) == 1;
            let fits = le64(s, start + 8) + le64(s, start + 32) <= s.len() && le64(s, start + 32)
                <= le64(s, start + 40);
            &&& (result is Ok && result->Ok_0 is Some) <==> loadable && fits
            &&& result matches Ok(Some(ph)) ==> {
                &&& ph.flags == le32(s, start + 4)
                &&& ph.offset == le64(s, start + 8)
                &&& ph.vaddr == le64(s, start + 16)
                &&& ph.filesz == le64(s, start + 32)
                &&& ph.memsz == le64(s, start + 40)
            }
            &&& result == Err::<Option<ProgramHeader>, ElfError>(
                ElfError::SegmentOutOfBounds,
            ) <==> loadable && !fits
            &&& result == Err::<Option<ProgramHeader>, ElfError>(
                ElfError::ProgramHeaderOutOfBounds,
            ) <==> !inside
            &&& result == Ok::<Option<ProgramHeader>, ElfError>(None) <==> inside && (le32(s, start)
                == 0 || le32(s, start) == 6 || le32(s, start) == 0x6474_e551 || le32(s, start)
                == 0x7000_0003)
            &&& inside && le32(s, start) != 1 && !(le32(s, start) == 0 || le32(s, start) == 6
                || le32(s, start) == 0x6474_e551 || le32(s, start) == 0x7000_0003) ==> result
                == Err::<Option<ProgramHeader>, ElfError>(
                ElfError::UnsupportedSegmentType(le32(s, start) as u32),
            )
        }),
{
    let s = image@;
    let start = header.phoff + index * header.phentsize;
    assert(index * header.phentsize >= 0) by (nonlinear_arith)
        requires
            0 <= index,
            0 <= header.phentsize,
    ;
    if start + 56 <= s.len() {
        lemma_le_spelled(s, start);
        lemma_le_spelled(s, start + 0x04);
        lemma_le_spelled(s, start + 0x08);
        lemma_le_spelled(s, start + 0x10);
        lemma_le_spelled(s, start + 0x20);
        lemma_le_spelled(s, start + 0x28);
    }
}

/// Fields of two, four and eight bytes are read exactly where they are all
/// there, the lowest byte first.
pub proof fn law_fields_are_little_endian(
    bytes: &[u8],
    offset: u64,
    two: Option<u16>,
    four: Option<u32>,
    eight: Option<u64>,
)
    requires
        call_ensures(read_u16, (bytes, offset), two),
        call_ensures(read_u32, (bytes, offset), four),
        call_ensures(read_u64, (bytes, offset), eight),
    ensures
        two is Some <==> offset + 2 <= bytes@.len(),
        four is Some <==> offset + 4 <= bytes@.len(),
        eight is Some <==> offset + 8 <= bytes@.len(),
        two matches Some(v) ==> v == le16(bytes@, offset as int),
        four matches Some(v) ==> v == le32(bytes@, offset as int),
        eight matches Some(v) ==> v == le64(bytes@, offset as int),
{
    lemma_le_spelled(bytes@, offset as int);
}

} // verus!

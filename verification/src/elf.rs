//! A minimal ELF64 reader: just enough to place a statically linked,
//! position-dependent RISC-V program into memory.
//!
//! The header is checked (magic, 64-bit, little-endian, `ET_EXEC`,
//! `EM_RISCV`), and of the program headers only `PT_LOAD` is ever acted on. A
//! few segment types that every ordinary linker emits and that carry nothing
//! to load are skipped; every other type is an error. No field of an image is
//! trusted to lie inside it: each offset and size is compared with the bytes
//! at hand before it is used.

use crate::bytes::{le_at, lemma_pow256, read_le};
use vstd::prelude::*;

verus! {

/// Why an image is rejected.
#[derive(Clone, Copy, PartialEq, Eq, Structural, Debug)]
pub enum ElfError {
    TooShortForHeader,
    BadMagic,
    NotClass64,
    NotLittleEndian,
    NotRiscv,
    NotExecutable,
    ProgramHeaderOutOfBounds,
    SegmentOutOfBounds,
    UnsupportedSegmentType(u32),
}

pub const EI_CLASS_64: u8 = 2;

pub const EI_DATA_LSB: u8 = 1;

pub const ET_EXEC: u16 = 2;

pub const EM_RISCV: u16 = 0xF3;

pub const ELF_HEADER_SIZE: usize = 64;

pub const PHDR_SIZE: usize = 56;

/// Segment types that are skipped: they are empty or purely informational.
pub const PT_NULL: u32 = 0;

pub const PT_PHDR: u32 = 6;

pub const PT_GNU_STACK: u32 = 0x6474_e551;

pub const PT_RISCV_ATTRIBUTES: u32 = 0x7000_0003;

/// The one segment type that is loaded.
pub const PT_LOAD: u32 = 1;

/// Segment permission bits: execute, write, read.
pub const PF_X: u32 = 1;

pub const PF_W: u32 = 2;

pub const PF_R: u32 = 4;

/// The fields of the file header that loading needs.
#[derive(Clone, Copy, PartialEq, Eq, Structural, Debug)]
pub struct ElfHeader {
    pub entry: u64,
    pub phoff: u64,
    pub phentsize: u16,
    pub phnum: u16,
}

/// A loadable segment.
#[derive(Clone, Copy, PartialEq, Eq, Structural, Debug)]
pub struct ProgramHeader {
    pub flags: u32,
    pub offset: u64,
    pub vaddr: u64,
    pub filesz: u64,
    pub memsz: u64,
}

/// The little-endian field of `n` bytes at `offset`.
pub open spec fn field(image: Seq<u8>, offset: int, n: int) -> nat {
    le_at(image, offset, n)
}

/// The image starts with the four ELF identification bytes.
pub open spec fn has_magic(image: Seq<u8>) -> bool {
    image[0] == 0x7F && image[1] == 0x45 && image[2] == 0x4C && image[3] == 0x46
}

/// What the file header of `image` says, or the first reason to reject it.
pub open spec fn header_of(image: Seq<u8>) -> Result<ElfHeader, ElfError> {
    if image.len() < ELF_HEADER_SIZE {
        Err(ElfError::TooShortForHeader)
    } else if !has_magic(image) {
        Err(ElfError::BadMagic)
    } else if image[4] != EI_CLASS_64 {
        Err(ElfError::NotClass64)
    } else if image[5] != EI_DATA_LSB {
        Err(ElfError::NotLittleEndian)
    } else if field(image, 0x10, 2) != ET_EXEC {
        Err(ElfError::NotExecutable)
    } else if field(image, 0x12, 2) != EM_RISCV {
        Err(ElfError::NotRiscv)
    } else {
        Ok(
            ElfHeader {
                entry: field(image, 0x18, 8) as u64,
                phoff: field(image, 0x20, 8) as u64,
                phentsize: field(image, 0x36, 2) as u16,
                phnum: field(image, 0x38, 2) as u16,
            },
        )
    }
}

/// Where program header `index` starts. The declared entry size is a stride
/// only.
pub open spec fn phdr_start(header: ElfHeader, index: int) -> int {
    header.phoff + index * header.phentsize
}

/// A segment type that is passed over in silence.
pub open spec fn skipped_type(p_type: int) -> bool {
    ||| p_type == PT_NULL
    ||| p_type == PT_PHDR
    ||| p_type == PT_GNU_STACK
    ||| p_type == PT_RISCV_ATTRIBUTES
}

/// The fields of the program header that starts at `start`.
pub open spec fn phdr_fields(image: Seq<u8>, start: int) -> ProgramHeader {
    ProgramHeader {
        flags: field(image, start + 0x04, 4) as u32,
        offset: field(image, start + 0x08, 8) as u64,
        vaddr: field(image, start + 0x10, 8) as u64,
        filesz: field(image, start + 0x20, 8) as u64,
        memsz: field(image, start + 0x28, 8) as u64,
    }
}

/// The segment's file range lies inside an image of `len` bytes and does not
/// exceed its memory range.
pub open spec fn segment_fits(ph: ProgramHeader, len: int) -> bool {
    ph.offset + ph.filesz <= len && ph.filesz <= ph.memsz
}

/// What program header `index` says: a segment to load, nothing to do, or the
/// reason to reject the image.
pub open spec fn program_header_of(image: Seq<u8>, header: ElfHeader, index: int) -> Result<
    Option<ProgramHeader>,
    ElfError,
> {
    let start = phdr_start(header, index);
    if start + PHDR_SIZE > image.len() {
        Err(ElfError::ProgramHeaderOutOfBounds)
    } else {
        let p_type = field(image, start, 4);
        if skipped_type(p_type as int) {
            Ok(None)
        } else if p_type != PT_LOAD {
            Err(ElfError::UnsupportedSegmentType(p_type as u32))
        } else if !segment_fits(phdr_fields(image, start), image.len() as int) {
            Err(ElfError::SegmentOutOfBounds)
        } else {
            Ok(Some(phdr_fields(image, start)))
        }
    }
}

/// Reads the 16-bit little-endian field at `offset`, where there is one.
pub fn read_u16(bytes: &[u8], offset: u64) -> (value: Option<u16>)
    ensures
        value is Some <==> offset + 2 <= bytes@.len(),
        value matches Some(v) ==> v == field(bytes@, offset as int, 2),
{
    proof {
        lemma_pow256();
    }
    match read_le(bytes, offset, 2) {
        Some(v) => Some(v as u16),
        None => None,
    }
}

/// Reads the 32-bit little-endian field at `offset`, where there is one.
pub fn read_u32(bytes: &[u8], offset: u64) -> (value: Option<u32>)
    ensures
        value is Some <==> offset + 4 <= bytes@.len(),
        value matches Some(v) ==> v == field(bytes@, offset as int, 4),
{
    proof {
        lemma_pow256();
    }
    match read_le(bytes, offset, 4) {
        Some(v) => Some(v as u32),
        None => None,
    }
}

/// Reads the 64-bit little-endian field at `offset`, where there is one.
pub fn read_u64(bytes: &[u8], offset: u64) -> (value: Option<u64>)
    ensures
        value is Some <==> offset + 8 <= bytes@.len(),
        value matches Some(v) ==> v == field(bytes@, offset as int, 8),
{
    read_le(bytes, offset, 8)
}

/// Checks the file header and reads what loading needs from it.
pub fn parse_header(bytes: &[u8]) -> (result: Result<ElfHeader, ElfError>)
    ensures
        result == header_of(bytes@),
{
    if bytes.len() < ELF_HEADER_SIZE {
        return Err(ElfError::TooShortForHeader);
    }
    if bytes[0] != 0x7F || bytes[1] != 0x45 || bytes[2] != 0x4C || bytes[3] != 0x46 {
        return Err(ElfError::BadMagic);
    }
    if bytes[4] != EI_CLASS_64 {
        return Err(ElfError::NotClass64);
    }
    if bytes[5] != EI_DATA_LSB {
        return Err(ElfError::NotLittleEndian);
    }
    let e_type = read_u16(bytes, 0x10).ok_or(ElfError::TooShortForHeader)?;
    if e_type != ET_EXEC {
        return Err(ElfError::NotExecutable);
    }
    let e_machine = read_u16(bytes, 0x12).ok_or(ElfError::TooShortForHeader)?;
    if e_machine != EM_RISCV {
        return Err(ElfError::NotRiscv);
    }
    let entry = read_u64(bytes, 0x18).ok_or(ElfError::TooShortForHeader)?;
    let phoff = read_u64(bytes, 0x20).ok_or(ElfError::TooShortForHeader)?;
    let phentsize = read_u16(bytes, 0x36).ok_or(ElfError::TooShortForHeader)?;
    let phnum = read_u16(bytes, 0x38).ok_or(ElfError::TooShortForHeader)?;
    Ok(ElfHeader { entry, phoff, phentsize, phnum })
}

/// Reads program header `index`: `Ok(None)` for a segment type that is
/// skipped, `Err` for anything that is not supported or does not fit.
pub fn program_header(bytes: &[u8], header: &ElfHeader, index: u16) -> (result: Result<
    Option<ProgramHeader>,
    ElfError,
>)
    ensures
        result == program_header_of(bytes@, *header, index as int),
{
    proof {
        assert(index * header.phentsize <= 0xFFFF * 0xFFFF) by (nonlinear_arith)
            requires
                0 <= index <= 0xFFFF,
                0 <= header.phentsize <= 0xFFFF,
        ;
        assert(index * header.phentsize >= 0) by (nonlinear_arith)
            requires
                0 <= index,
                0 <= header.phentsize,
        ;
    }
    let len: u64 = bytes.len() as u64;
    let start: u64 = match header.phoff.checked_add(index as u64 * header.phentsize as u64) {
        Some(start) => start,
        None => return Err(ElfError::ProgramHeaderOutOfBounds),
    };
    if start > len || len - start < PHDR_SIZE as u64 {
        return Err(ElfError::ProgramHeaderOutOfBounds);
    }
    let p_type = read_u32(bytes, start).ok_or(ElfError::ProgramHeaderOutOfBounds)?;
    if p_type == PT_NULL || p_type == PT_PHDR || p_type == PT_GNU_STACK || p_type
        == PT_RISCV_ATTRIBUTES {
        return Ok(None);
    }
    if p_type != PT_LOAD {
        return Err(ElfError::UnsupportedSegmentType(p_type));
    }
    let flags = read_u32(bytes, start + 0x04).ok_or(ElfError::ProgramHeaderOutOfBounds)?;
    let offset = read_u64(bytes, start + 0x08).ok_or(ElfError::ProgramHeaderOutOfBounds)?;
    let vaddr = read_u64(bytes, start + 0x10).ok_or(ElfError::ProgramHeaderOutOfBounds)?;
    let filesz = read_u64(bytes, start + 0x20).ok_or(ElfError::ProgramHeaderOutOfBounds)?;
    let memsz = read_u64(bytes, start + 0x28).ok_or(ElfError::ProgramHeaderOutOfBounds)?;

    // A file range that overflows or runs past the end of the image is
    // rejected here, so that nothing later can slice out of bounds.
    let file_end: u64 = match offset.checked_add(filesz) {
        Some(end) => end,
        None => return Err(ElfError::SegmentOutOfBounds),
    };
    if file_end > len || filesz > memsz {
        return Err(ElfError::SegmentOutOfBounds);
    }
    Ok(Some(ProgramHeader { flags, offset, vaddr, filesz, memsz }))
}

} // verus!

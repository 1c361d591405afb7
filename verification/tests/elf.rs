use lantern_boot::elf::{
    parse_header, program_header, read_u16, read_u32, read_u64, ElfError, ElfHeader, ProgramHeader,
    EI_CLASS_64, EI_DATA_LSB, ELF_HEADER_SIZE, EM_RISCV, ET_EXEC, PF_R, PF_W, PF_X, PHDR_SIZE,
    PT_GNU_STACK, PT_LOAD, PT_NULL, PT_PHDR, PT_RISCV_ATTRIBUTES,
};

fn valid_header_bytes() -> [u8; ELF_HEADER_SIZE] {
    let mut b = [0u8; ELF_HEADER_SIZE];
    b[0..4].copy_from_slice(&[0x7F, b'E', b'L', b'F']);
    b[4] = EI_CLASS_64;
    b[5] = EI_DATA_LSB;
    b[0x10..0x12].copy_from_slice(&ET_EXEC.to_le_bytes());
    b[0x12..0x14].copy_from_slice(&EM_RISCV.to_le_bytes());
    b[0x18..0x20].copy_from_slice(&0x8400_0000u64.to_le_bytes()); // entry
    b[0x20..0x28].copy_from_slice(&(ELF_HEADER_SIZE as u64).to_le_bytes()); // phoff
    b[0x36..0x38].copy_from_slice(&(PHDR_SIZE as u16).to_le_bytes()); // phentsize
    b[0x38..0x3A].copy_from_slice(&1u16.to_le_bytes()); // phnum
    b
}

fn image_with(phdr: &[u8]) -> Vec<u8> {
    let mut bytes = valid_header_bytes().to_vec();
    bytes.extend_from_slice(phdr);
    bytes
}

fn load_phdr(flags: u32, offset: u64, vaddr: u64, filesz: u64, memsz: u64) -> [u8; PHDR_SIZE] {
    let mut phdr = [0u8; PHDR_SIZE];
    phdr[0x00..0x04].copy_from_slice(&PT_LOAD.to_le_bytes());
    phdr[0x04..0x08].copy_from_slice(&flags.to_le_bytes());
    phdr[0x08..0x10].copy_from_slice(&offset.to_le_bytes());
    phdr[0x10..0x18].copy_from_slice(&vaddr.to_le_bytes());
    phdr[0x20..0x28].copy_from_slice(&filesz.to_le_bytes());
    phdr[0x28..0x30].copy_from_slice(&memsz.to_le_bytes());
    phdr
}

#[test]
fn parses_a_valid_header() {
    let bytes = valid_header_bytes();
    let header = parse_header(&bytes).unwrap();
    assert_eq!(header.entry, 0x8400_0000);
    assert_eq!(header.phoff, ELF_HEADER_SIZE as u64);
    assert_eq!(header.phnum, 1);
}

#[test]
fn rejects_bad_magic() {
    let mut bytes = valid_header_bytes();
    bytes[0] = 0;
    assert_eq!(parse_header(&bytes), Err(ElfError::BadMagic));
}

#[test]
fn rejects_non_riscv() {
    let mut bytes = valid_header_bytes();
    bytes[0x12..0x14].copy_from_slice(&0x3Eu16.to_le_bytes()); // EM_X86_64
    assert_eq!(parse_header(&bytes), Err(ElfError::NotRiscv));
}

#[test]
fn rejects_a_too_short_buffer() {
    assert_eq!(parse_header(&[0u8; 10]), Err(ElfError::TooShortForHeader));
}

#[test]
fn reads_a_pt_load_program_header() {
    let mut bytes = valid_header_bytes().to_vec();
    let mut phdr = [0u8; PHDR_SIZE];
    phdr[0x00..0x04].copy_from_slice(&PT_LOAD.to_le_bytes());
    phdr[0x04..0x08].copy_from_slice(&(PF_R | PF_X).to_le_bytes());
    phdr[0x08..0x10].copy_from_slice(&0u64.to_le_bytes()); // offset
    phdr[0x10..0x18].copy_from_slice(&0x8400_0000u64.to_le_bytes()); // vaddr
    phdr[0x20..0x28].copy_from_slice(&64u64.to_le_bytes()); // filesz
    phdr[0x28..0x30].copy_from_slice(&64u64.to_le_bytes()); // memsz
    bytes.extend_from_slice(&phdr);
    bytes.resize(bytes.len().max(64), 0);

    let header = parse_header(&bytes).unwrap();
    let ph = program_header(&bytes, &header, 0).unwrap().unwrap();
    assert_eq!(ph.vaddr, 0x8400_0000);
    assert_eq!(ph.flags, PF_R | PF_X);
    assert_eq!(ph.filesz, 64);
}

#[test]
fn skips_known_harmless_segment_types() {
    let mut bytes = valid_header_bytes().to_vec();
    let mut phdr = [0u8; PHDR_SIZE];
    phdr[0x00..0x04].copy_from_slice(&PT_GNU_STACK.to_le_bytes());
    bytes.extend_from_slice(&phdr);

    let header = parse_header(&bytes).unwrap();
    assert_eq!(program_header(&bytes, &header, 0).unwrap(), None);
}

#[test]
fn rejects_an_unsupported_segment_type() {
    let mut bytes = valid_header_bytes().to_vec();
    let mut phdr = [0u8; PHDR_SIZE];
    const PT_DYNAMIC: u32 = 2;
    phdr[0x00..0x04].copy_from_slice(&PT_DYNAMIC.to_le_bytes());
    bytes.extend_from_slice(&phdr);

    let header = parse_header(&bytes).unwrap();
    assert_eq!(
        program_header(&bytes, &header, 0),
        Err(ElfError::UnsupportedSegmentType(PT_DYNAMIC))
    );
}

#[test]
fn rejects_a_segment_claiming_bytes_past_the_end_of_the_image() {
    let mut bytes = valid_header_bytes().to_vec();
    let mut phdr = [0u8; PHDR_SIZE];
    phdr[0x00..0x04].copy_from_slice(&PT_LOAD.to_le_bytes());
    phdr[0x08..0x10].copy_from_slice(&0u64.to_le_bytes()); // offset
    phdr[0x20..0x28].copy_from_slice(&1_000_000u64.to_le_bytes()); // filesz -- way past EOF
    phdr[0x28..0x30].copy_from_slice(&1_000_000u64.to_le_bytes()); // memsz
    bytes.extend_from_slice(&phdr);

    let header = parse_header(&bytes).unwrap();
    assert_eq!(program_header(&bytes, &header, 0), Err(ElfError::SegmentOutOfBounds));
}

#[test]
fn rejects_a_32_bit_image() {
    let mut bytes = valid_header_bytes();
    bytes[4] = 1;
    assert_eq!(parse_header(&bytes), Err(ElfError::NotClass64));
}

#[test]
fn rejects_a_big_endian_image() {
    let mut bytes = valid_header_bytes();
    bytes[5] = 2;
    assert_eq!(parse_header(&bytes), Err(ElfError::NotLittleEndian));
}

#[test]
fn rejects_a_shared_object() {
    let mut bytes = valid_header_bytes();
    bytes[0x10] = 3;
    assert_eq!(parse_header(&bytes), Err(ElfError::NotExecutable));
}

#[test]
fn the_file_type_is_checked_before_the_machine() {
    let mut bytes = valid_header_bytes();
    bytes[0x10] = 3;
    bytes[0x12] = 0x3E;
    assert_eq!(parse_header(&bytes), Err(ElfError::NotExecutable));
}

#[test]
fn every_header_field_is_read_from_its_place() {
    let mut bytes = valid_header_bytes();
    bytes[0x18..0x20].copy_from_slice(&0x0102_0304_0506_0708u64.to_le_bytes());
    bytes[0x20..0x28].copy_from_slice(&0x1112_1314_1516_1718u64.to_le_bytes());
    bytes[0x36..0x38].copy_from_slice(&0x2122u16.to_le_bytes());
    bytes[0x38..0x3A].copy_from_slice(&0x3132u16.to_le_bytes());
    assert_eq!(
        parse_header(&bytes),
        Ok(ElfHeader {
            entry: 0x0102_0304_0506_0708,
            phoff: 0x1112_1314_1516_1718,
            phentsize: 0x2122,
            phnum: 0x3132,
        })
    );
}

#[test]
fn bytes_after_the_header_do_not_change_it() {
    let bytes = valid_header_bytes();
    let mut longer = bytes.to_vec();
    longer.extend_from_slice(&[0xAA; 100]);
    assert_eq!(parse_header(&bytes), parse_header(&longer));
}

#[test]
fn bytes_that_are_no_header_field_do_not_matter() {
    let bytes = valid_header_bytes();
    let fields = [0..6, 0x10..0x14, 0x18..0x28, 0x36..0x3A];
    let mut other = bytes;
    for (i, byte) in other.iter_mut().enumerate() {
        if !fields.iter().any(|field| field.contains(&i)) {
            *byte ^= 0xFF;
        }
    }
    assert_ne!(bytes, other);
    assert_eq!(parse_header(&bytes), parse_header(&other));
}

#[test]
fn every_program_header_field_is_read_from_its_place() {
    let bytes = image_with(&load_phdr(PF_R | PF_W, 8, 0x8400_1000, 100, 4096));
    let header = parse_header(&bytes).unwrap();
    assert_eq!(
        program_header(&bytes, &header, 0),
        Ok(Some(ProgramHeader {
            flags: PF_R | PF_W,
            offset: 8,
            vaddr: 0x8400_1000,
            filesz: 100,
            memsz: 4096,
        }))
    );
}

#[test]
fn the_whole_skip_list_is_skipped() {
    for p_type in [PT_NULL, PT_PHDR, PT_GNU_STACK, PT_RISCV_ATTRIBUTES] {
        let mut phdr = [0u8; PHDR_SIZE];
        phdr[0..4].copy_from_slice(&p_type.to_le_bytes());
        let bytes = image_with(&phdr);
        let header = parse_header(&bytes).unwrap();
        assert_eq!(program_header(&bytes, &header, 0), Ok(None));
    }
}

#[test]
fn a_program_header_past_the_end_is_an_error() {
    let bytes = image_with(&load_phdr(PF_R, 0, 0, 0, 0));
    let header = parse_header(&bytes).unwrap();
    assert_eq!(program_header(&bytes, &header, 1), Err(ElfError::ProgramHeaderOutOfBounds));
}

#[test]
fn a_program_header_table_at_the_end_of_the_address_range_is_an_error() {
    let bytes = valid_header_bytes();
    for phoff in [u64::MAX, u64::MAX - 3, u64::MAX - 55, u64::MAX - 56, 1 << 63] {
        let header = ElfHeader { entry: 0, phoff, phentsize: 56, phnum: 2 };
        assert_eq!(program_header(&bytes, &header, 0), Err(ElfError::ProgramHeaderOutOfBounds));
        assert_eq!(program_header(&bytes, &header, 1), Err(ElfError::ProgramHeaderOutOfBounds));
    }
}

#[test]
fn a_file_range_that_overflows_is_an_error() {
    let bytes = image_with(&load_phdr(PF_R, u64::MAX, 0, 2, 4));
    let header = parse_header(&bytes).unwrap();
    assert_eq!(program_header(&bytes, &header, 0), Err(ElfError::SegmentOutOfBounds));
}

#[test]
fn a_file_range_larger_than_the_memory_range_is_an_error() {
    let bytes = image_with(&load_phdr(PF_R, 0, 0, 65, 64));
    let header = parse_header(&bytes).unwrap();
    assert_eq!(program_header(&bytes, &header, 0), Err(ElfError::SegmentOutOfBounds));
}

#[test]
fn a_segment_that_ends_exactly_at_the_end_of_the_image_is_accepted() {
    let bytes = image_with(&load_phdr(PF_R, 20, 0, 100, 100));
    assert_eq!(bytes.len(), 120);
    let header = parse_header(&bytes).unwrap();
    let ph = program_header(&bytes, &header, 0).unwrap().unwrap();
    assert_eq!(ph.offset + ph.filesz, 120);
}

#[test]
fn fields_are_little_endian_and_bounded() {
    let bytes = [1u8, 2, 3, 4, 5, 6, 7, 8, 9];
    assert_eq!(read_u16(&bytes, 7), Some(0x0908));
    assert_eq!(read_u16(&bytes, 8), None);
    assert_eq!(read_u32(&bytes, 5), Some(0x0908_0706));
    assert_eq!(read_u32(&bytes, 6), None);
    assert_eq!(read_u64(&bytes, 1), Some(0x0908_0706_0504_0302));
    assert_eq!(read_u64(&bytes, 2), None);
    assert_eq!(read_u64(&bytes, u64::MAX), None);
}

#[test]
fn the_entry_size_is_only_a_stride() {
    let mut bytes = image_with(&load_phdr(PF_R, 0, 0x8400_0000, 8, 8));
    bytes.extend_from_slice(&load_phdr(PF_W, 1, 0x8420_0000, 4, 4));
    let packed = ElfHeader { entry: 0, phoff: 64, phentsize: PHDR_SIZE as u16, phnum: 2 };
    let apart = ElfHeader { entry: 0, phoff: 64, phentsize: 28, phnum: 3 };
    assert_eq!(program_header(&bytes, &packed, 1), program_header(&bytes, &apart, 2));
    assert_eq!(program_header(&bytes, &packed, 1).unwrap().unwrap().vaddr, 0x8420_0000);
    let still = ElfHeader { entry: 0, phoff: 64, phentsize: 0, phnum: 9 };
    assert_eq!(program_header(&bytes, &still, 7), program_header(&bytes, &packed, 0));
}

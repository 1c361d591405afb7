use lantern_boot::fdt::{
    align4, be32, parse_layout, parse_ram_region, ram_region, read_cells, read_reg, total_size,
    FdtError, Layout, FDT_BEGIN_NODE, FDT_END, FDT_END_NODE, FDT_MAGIC, FDT_NOP, FDT_PROP,
};

/// Build a minimal v17 DTB: root with `#address-cells`/`#size-cells`, one
/// `memory@X` child with `reg`, plus a decoy sibling node and property.
fn build_dtb(addr_cells: u32, size_cells: u32, reg: &[u8]) -> Vec<u8> {
    // Strings block: property names, null-terminated.
    let mut strings = Vec::new();
    let ac_off = strings.len() as u32;
    strings.extend_from_slice(b"#address-cells\0");
    let sc_off = strings.len() as u32;
    strings.extend_from_slice(b"#size-cells\0");
    let dt_off = strings.len() as u32;
    strings.extend_from_slice(b"device_type\0");
    let reg_off = strings.len() as u32;
    strings.extend_from_slice(b"reg\0");

    let mut st = Vec::new();
    node(&mut st, b""); // root
    prop(&mut st, ac_off, &addr_cells.to_be_bytes());
    prop(&mut st, sc_off, &size_cells.to_be_bytes());
    node(&mut st, b"chosen"); // decoy sibling, no reg
    prop(&mut st, dt_off, b"whatever\0");
    tok(&mut st, FDT_END_NODE);
    node(&mut st, b"memory@80000000");
    prop(&mut st, dt_off, b"memory\0");
    prop(&mut st, reg_off, reg);
    tok(&mut st, FDT_END_NODE);
    tok(&mut st, FDT_END_NODE); // close root
    tok(&mut st, FDT_END);
    assemble(&st, &strings)
}

fn tok(st: &mut Vec<u8>, t: u32) {
    st.extend_from_slice(&t.to_be_bytes());
}

fn pad(st: &mut Vec<u8>) {
    while st.len() % 4 != 0 {
        st.push(0);
    }
}

fn prop(st: &mut Vec<u8>, nameoff: u32, val: &[u8]) {
    st.extend_from_slice(&FDT_PROP.to_be_bytes());
    st.extend_from_slice(&(val.len() as u32).to_be_bytes());
    st.extend_from_slice(&nameoff.to_be_bytes());
    st.extend_from_slice(val);
    pad(st);
}

fn node(st: &mut Vec<u8>, name: &[u8]) {
    st.extend_from_slice(&FDT_BEGIN_NODE.to_be_bytes());
    st.extend_from_slice(name);
    st.push(0);
    pad(st);
}

fn assemble(st: &[u8], strings: &[u8]) -> Vec<u8> {
    let header_len = 40;
    let off_struct = header_len;
    let off_strings = off_struct + st.len();
    let total = off_strings + strings.len();

    let mut dtb = Vec::new();
    let h = |dtb: &mut Vec<u8>, v: u32| dtb.extend_from_slice(&v.to_be_bytes());
    h(&mut dtb, FDT_MAGIC);
    h(&mut dtb, total as u32);
    h(&mut dtb, off_struct as u32);
    h(&mut dtb, off_strings as u32);
    h(&mut dtb, 0); // off_mem_rsvmap
    h(&mut dtb, 17); // version
    h(&mut dtb, 16); // last_comp_version
    h(&mut dtb, 0); // boot_cpuid_phys
    h(&mut dtb, strings.len() as u32);
    h(&mut dtb, st.len() as u32);
    dtb.extend_from_slice(st);
    dtb.extend_from_slice(strings);
    dtb
}

fn set_word(dtb: &mut [u8], off: usize, value: u32) {
    dtb[off..off + 4].copy_from_slice(&value.to_be_bytes());
}

const STRINGS: &[u8] = b"#address-cells\0#size-cells\0reg\0";
const AC: u32 = 0;
const SC: u32 = 15;
const REG: u32 = 27;

#[test]
fn reads_qemu_virt_style_2_2_cells() {
    // reg = <0x0 0x80000000 0x0 0x08000000> — 128 MiB at 0x8000_0000.
    let reg = [0u8, 0, 0, 0, 0x80, 0, 0, 0, 0, 0, 0, 0, 0x08, 0, 0, 0];
    let dtb = build_dtb(2, 2, &reg);
    assert_eq!(parse_ram_region(&dtb), Ok((0x8000_0000, 0x0800_0000)));
}

#[test]
fn reads_1_1_cells() {
    let reg = [0x80u8, 0, 0, 0, 0x04, 0, 0, 0]; // 64 MiB at 0x8000_0000
    let dtb = build_dtb(1, 1, &reg);
    assert_eq!(parse_ram_region(&dtb), Ok((0x8000_0000, 0x0400_0000)));
}

#[test]
fn full_64_bit_base_and_size() {
    let reg = [
        0x00, 0x00, 0x00, 0x01, 0x00, 0x00, 0x00, 0x00, // base = 0x1_0000_0000
        0x00, 0x00, 0x00, 0x02, 0x00, 0x00, 0x00, 0x00, // size = 0x2_0000_0000
    ];
    let dtb = build_dtb(2, 2, &reg);
    assert_eq!(parse_ram_region(&dtb), Ok((0x1_0000_0000, 0x2_0000_0000)));
}

#[test]
fn rejects_bad_magic_and_truncation() {
    let mut dtb = build_dtb(2, 2, &[0; 16]);
    dtb[0] ^= 0xFF;
    assert_eq!(parse_ram_region(&dtb), Err(FdtError::BadMagic));

    let dtb = build_dtb(2, 2, &[0; 16]);
    assert_eq!(parse_ram_region(&dtb[..30]), Err(FdtError::TooShortForHeader));
    // Cut into the struct block: the walk runs off the end.
    assert!(parse_ram_region(&dtb[..dtb.len() - 20]).is_err());
}

#[test]
fn no_memory_node_is_an_error_not_a_guess() {
    // A reg too short for the declared cells.
    let dtb = build_dtb(2, 2, &[0, 0, 0, 0]);
    assert_eq!(parse_ram_region(&dtb), Err(FdtError::BadMemoryReg));
}

#[test]
fn total_size_matches_the_header() {
    let dtb = build_dtb(2, 2, &[0; 16]);
    assert_eq!(total_size(&dtb), Ok(dtb.len()));
}

#[test]
fn total_size_needs_the_magic_and_the_size_word() {
    let dtb = build_dtb(2, 2, &[0; 16]);
    assert_eq!(total_size(&dtb[..8]), Ok(dtb.len()));
    assert_eq!(total_size(&dtb[..7]), Err(FdtError::TooShortForHeader));
    assert_eq!(total_size(&dtb[..3]), Err(FdtError::BadMagic));
    assert_eq!(total_size(&[0; 8]), Err(FdtError::BadMagic));
}

#[test]
fn ram_region_reads_as_much_as_the_header_declares() {
    let reg = [0x80u8, 0, 0, 0, 0x04, 0, 0, 0];
    let dtb = build_dtb(1, 1, &reg);
    assert_eq!(ram_region(&dtb), Some((0x8000_0000, 0x0400_0000)));

    let mut more = dtb.clone();
    more.extend_from_slice(&[0xFF; 50]);
    assert_eq!(ram_region(&more), Some((0x8000_0000, 0x0400_0000)));

    assert_eq!(ram_region(&dtb[..dtb.len() - 1]), None);
    assert_eq!(ram_region(&[0; 100]), None);

    let mut short = dtb.clone();
    set_word(&mut short, 4, 39);
    assert_eq!(ram_region(&short), None);
}

#[test]
fn bytes_behind_a_blob_do_not_matter() {
    let reg = [0x80u8, 0, 0, 0, 0x04, 0, 0, 0];
    let good = build_dtb(1, 1, &reg);
    let mut old = good.clone();
    set_word(&mut old, 20, 15);
    let mut st = Vec::new();
    node(&mut st, b"");
    tok(&mut st, FDT_END_NODE);
    let blobs = [good, build_dtb(1, 1, &[0; 4]), old, vec![0; 40], assemble(&st, STRINGS)];
    let expected = [
        Ok((0x8000_0000, 0x0400_0000)),
        Err(FdtError::BadMemoryReg),
        Err(FdtError::UnsupportedVersion(15)),
        Err(FdtError::BadMagic),
        Err(FdtError::NoMemoryNode),
    ];
    for (blob, expected) in blobs.iter().zip(expected) {
        assert_eq!(parse_ram_region(blob), expected);
        for rest in [&[0u8; 8][..], &[0xFF; 50], blob] {
            let longer = [&blob[..], rest].concat();
            assert_eq!(parse_ram_region(&longer), expected);
        }
    }
    // A blob that was cut short is another matter.
    assert_eq!(parse_ram_region(&blobs[0][..39]), Err(FdtError::TooShortForHeader));
    assert_eq!(parse_ram_region(&blobs[0]), expected[0]);
}

#[test]
fn old_layouts_are_rejected() {
    let mut dtb = build_dtb(1, 1, &[0; 8]);
    set_word(&mut dtb, 20, 15);
    assert_eq!(parse_ram_region(&dtb), Err(FdtError::UnsupportedVersion(15)));
    set_word(&mut dtb, 20, 16);
    assert_eq!(parse_ram_region(&dtb), Ok((0, 0)));
}

#[test]
fn blocks_outside_the_blob_are_rejected() {
    let good = build_dtb(1, 1, &[0; 8]);

    let mut dtb = good.clone();
    set_word(&mut dtb, 36, good.len() as u32);
    assert_eq!(parse_ram_region(&dtb), Err(FdtError::StructBlockOutOfBounds));

    let mut dtb = good.clone();
    set_word(&mut dtb, 8, u32::MAX);
    set_word(&mut dtb, 36, u32::MAX);
    assert_eq!(parse_ram_region(&dtb), Err(FdtError::StructBlockOutOfBounds));

    let mut dtb = good.clone();
    set_word(&mut dtb, 12, good.len() as u32 + 1);
    assert_eq!(parse_ram_region(&dtb), Err(FdtError::StructBlockOutOfBounds));
}

#[test]
fn the_layout_is_what_the_header_says() {
    let dtb = build_dtb(1, 1, &[0; 8]);
    let st = u32::from_be_bytes(dtb[36..40].try_into().unwrap()) as u64;
    assert_eq!(
        parse_layout(&dtb),
        Ok(Layout { struct_start: 40, struct_end: 40 + st, strings: 40 + st })
    );
}

#[test]
fn a_property_name_outside_the_strings_is_rejected() {
    let mut st = Vec::new();
    node(&mut st, b"");
    prop(&mut st, 1000, &[]);
    tok(&mut st, FDT_END_NODE);
    tok(&mut st, FDT_END);
    assert_eq!(
        parse_ram_region(&assemble(&st, STRINGS)),
        Err(FdtError::StringsBlockOutOfBounds)
    );

    let mut st = Vec::new();
    node(&mut st, b"");
    prop(&mut st, 0, &[]);
    tok(&mut st, FDT_END);
    assert_eq!(
        parse_ram_region(&assemble(&st, b"unterminated")),
        Err(FdtError::StringsBlockOutOfBounds)
    );
}

#[test]
fn a_value_past_the_structure_block_is_truncated() {
    let mut st = Vec::new();
    node(&mut st, b"");
    tok(&mut st, FDT_PROP);
    tok(&mut st, 4);
    tok(&mut st, REG);
    assert_eq!(parse_ram_region(&assemble(&st, STRINGS)), Err(FdtError::Truncated));
}

#[test]
fn a_name_without_an_end_is_truncated() {
    let mut st = Vec::new();
    tok(&mut st, FDT_BEGIN_NODE);
    st.extend_from_slice(b"node");
    assert_eq!(parse_ram_region(&assemble(&st, STRINGS)), Err(FdtError::Truncated));
}

#[test]
fn a_node_that_starts_past_the_structure_block_is_truncated() {
    // The structure block ends before the token, which still lies in the blob.
    let mut st = Vec::new();
    node(&mut st, b"");
    tok(&mut st, FDT_END);
    let mut dtb = assemble(&st, STRINGS);
    set_word(&mut dtb, 36, 0);
    assert_eq!(parse_ram_region(&dtb), Err(FdtError::Truncated));
}

#[test]
fn an_unknown_token_is_truncated() {
    let mut st = Vec::new();
    node(&mut st, b"");
    tok(&mut st, 7);
    assert_eq!(parse_ram_region(&assemble(&st, STRINGS)), Err(FdtError::Truncated));
}

#[test]
fn the_blob_may_not_end_before_the_tree_does() {
    let mut st = Vec::new();
    node(&mut st, b"");
    tok(&mut st, FDT_NOP);
    assert_eq!(parse_ram_region(&assemble(&st, b"")), Err(FdtError::Truncated));
}

#[test]
fn a_tree_without_memory_has_no_memory_node() {
    let mut st = Vec::new();
    node(&mut st, b"");
    node(&mut st, b"chosen");
    tok(&mut st, FDT_END_NODE);
    tok(&mut st, FDT_END_NODE);
    tok(&mut st, FDT_END);
    assert_eq!(parse_ram_region(&assemble(&st, STRINGS)), Err(FdtError::NoMemoryNode));

    let mut st = Vec::new();
    tok(&mut st, FDT_NOP);
    tok(&mut st, FDT_END);
    assert_eq!(parse_ram_region(&assemble(&st, STRINGS)), Err(FdtError::NoMemoryNode));
}

#[test]
fn only_a_memory_node_right_below_the_root_counts() {
    let mut st = Vec::new();
    node(&mut st, b"");
    prop(&mut st, AC, &1u32.to_be_bytes());
    prop(&mut st, SC, &1u32.to_be_bytes());
    node(&mut st, b"soc");
    node(&mut st, b"memory@1000");
    prop(&mut st, REG, &[0, 0, 0, 1, 0, 0, 0, 2]);
    tok(&mut st, FDT_END_NODE);
    tok(&mut st, FDT_END_NODE);
    node(&mut st, b"memory-controller");
    prop(&mut st, REG, &[0, 0, 0, 3, 0, 0, 0, 4]);
    tok(&mut st, FDT_END_NODE);
    tok(&mut st, FDT_NOP);
    node(&mut st, b"memory");
    prop(&mut st, REG, &[0, 0, 0, 5, 0, 0, 0, 6]);
    tok(&mut st, FDT_END_NODE);
    tok(&mut st, FDT_END_NODE);
    tok(&mut st, FDT_END);
    assert_eq!(parse_ram_region(&assemble(&st, STRINGS)), Ok((5, 6)));
}

#[test]
fn the_first_memory_node_and_its_first_pair_decide() {
    let mut st = Vec::new();
    node(&mut st, b"");
    prop(&mut st, AC, &1u32.to_be_bytes());
    prop(&mut st, SC, &1u32.to_be_bytes());
    node(&mut st, b"memory@0");
    prop(&mut st, REG, &[0, 0, 0, 1, 0, 0, 0, 2, 0, 0, 0, 3, 0, 0, 0, 4]);
    tok(&mut st, FDT_END_NODE);
    node(&mut st, b"memory@1");
    prop(&mut st, REG, &[0, 0, 0, 7, 0, 0, 0, 8]);
    tok(&mut st, FDT_END_NODE);
    tok(&mut st, FDT_END_NODE);
    tok(&mut st, FDT_END);
    assert_eq!(parse_ram_region(&assemble(&st, STRINGS)), Ok((1, 2)));
}

#[test]
fn the_default_cell_counts_are_two_and_one() {
    let mut st = Vec::new();
    node(&mut st, b"");
    // Not four bytes, so not a cell count.
    prop(&mut st, AC, &[1]);
    node(&mut st, b"memory");
    prop(&mut st, REG, &[0, 0, 0, 1, 0, 0, 0, 2, 0, 0, 0, 3]);
    tok(&mut st, FDT_END_NODE);
    tok(&mut st, FDT_END_NODE);
    tok(&mut st, FDT_END);
    assert_eq!(parse_ram_region(&assemble(&st, STRINGS)), Ok((0x1_0000_0002, 3)));
}

#[test]
fn unsupported_cell_counts_are_rejected() {
    assert_eq!(read_reg(&[0; 32], 0, 1), Err(FdtError::BadMemoryReg));
    assert_eq!(read_reg(&[0; 32], 3, 1), Err(FdtError::BadMemoryReg));
    assert_eq!(read_reg(&[0; 32], 1, 0), Err(FdtError::BadMemoryReg));
    assert_eq!(read_reg(&[0; 32], 1, 3), Err(FdtError::BadMemoryReg));
    assert_eq!(read_reg(&[0, 0, 0, 9, 1, 0, 0, 0, 1], 1, 2), Err(FdtError::BadMemoryReg));
    assert_eq!(
        read_reg(&[0, 0, 0, 9, 1, 0, 0, 0, 0, 0, 0, 1, 0xFF], 1, 2),
        Ok((9, 0x0100_0000_0000_0001))
    );
}

#[test]
fn cells_are_big_endian_and_keep_the_last_eight_bytes() {
    assert_eq!(read_cells(&[]), 0);
    assert_eq!(read_cells(&[1, 2, 3]), 0x01_0203);
    assert_eq!(read_cells(&[1, 2, 3, 4, 5, 6, 7, 8]), 0x0102_0304_0506_0708);
    assert_eq!(read_cells(&[9, 1, 2, 3, 4, 5, 6, 7, 8]), 0x0102_0304_0506_0708);
}

#[test]
fn words_are_big_endian_and_bounded() {
    let bytes = [1u8, 2, 3, 4, 5];
    assert_eq!(be32(&bytes, 0), Some(0x0102_0304));
    assert_eq!(be32(&bytes, 1), Some(0x0203_0405));
    assert_eq!(be32(&bytes, 2), None);
    assert_eq!(be32(&bytes, u64::MAX), None);
}

#[test]
fn alignment_rounds_up_to_four() {
    assert_eq!(align4(0), 0);
    assert_eq!(align4(1), 4);
    assert_eq!(align4(4), 4);
    assert_eq!(align4(4093), 4096);
}

#[test]
fn the_structure_block_may_not_end_before_the_tree_does() {
    // The tokens that close the tree lie in the blob, past the block.
    let mut st = Vec::new();
    node(&mut st, b"");
    tok(&mut st, FDT_NOP);
    tok(&mut st, FDT_END_NODE);
    tok(&mut st, FDT_END);
    let mut dtb = assemble(&st, STRINGS);
    assert_eq!(parse_ram_region(&dtb), Err(FdtError::NoMemoryNode));
    for cut in 5..=12 {
        set_word(&mut dtb, 36, st.len() as u32 - cut);
        assert_eq!(parse_ram_region(&dtb), Err(FdtError::Truncated));
    }
    set_word(&mut dtb, 36, st.len() as u32 - 4);
    assert_eq!(parse_ram_region(&dtb), Err(FdtError::NoMemoryNode));
}

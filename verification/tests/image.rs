use lantern_boot::elf::{parse_header, ElfError, ElfHeader, ProgramHeader, PF_R, PF_W, PF_X};
use lantern_boot::image::{
    page_index, plan_chunks, plan_pages, segment_pages, segment_perms, Chunk, LoadError, Page,
    MAX_PROGRAM_MEGAPAGES, PERM_R, PERM_U, PERM_W, PERM_X,
};
use lantern_boot::megapage::{round_down, round_up, MEGAPAGE_SIZE};

struct Segment {
    p_type: u32,
    flags: u32,
    vaddr: u64,
    data: Vec<u8>,
    memsz: u64,
}

fn segment(flags: u32, vaddr: u64, data: &[u8], memsz: u64) -> Segment {
    Segment { p_type: 1, flags, vaddr, data: data.to_vec(), memsz }
}

fn elf(segments: &[Segment]) -> Vec<u8> {
    let mut b = vec![0u8; 64];
    b[0..4].copy_from_slice(&[0x7F, b'E', b'L', b'F']);
    b[4] = 2;
    b[5] = 1;
    b[0x10..0x12].copy_from_slice(&2u16.to_le_bytes());
    b[0x12..0x14].copy_from_slice(&0xF3u16.to_le_bytes());
    b[0x18..0x20].copy_from_slice(&0x8400_0000u64.to_le_bytes());
    b[0x20..0x28].copy_from_slice(&64u64.to_le_bytes());
    b[0x36..0x38].copy_from_slice(&56u16.to_le_bytes());
    b[0x38..0x3A].copy_from_slice(&(segments.len() as u16).to_le_bytes());
    let mut offset = 64 + 56 * segments.len() as u64;
    for s in segments {
        let mut p = [0u8; 56];
        p[0x00..0x04].copy_from_slice(&s.p_type.to_le_bytes());
        p[0x04..0x08].copy_from_slice(&s.flags.to_le_bytes());
        p[0x08..0x10].copy_from_slice(&offset.to_le_bytes());
        p[0x10..0x18].copy_from_slice(&s.vaddr.to_le_bytes());
        p[0x20..0x28].copy_from_slice(&(s.data.len() as u64).to_le_bytes());
        p[0x28..0x30].copy_from_slice(&s.memsz.to_le_bytes());
        b.extend_from_slice(&p);
        offset += s.data.len() as u64;
    }
    for s in segments {
        b.extend_from_slice(&s.data);
    }
    b
}

fn pages(image: &[u8]) -> Result<Vec<Page>, LoadError> {
    plan_pages(image, &header(image))
}

fn header(image: &[u8]) -> ElfHeader {
    parse_header(image).unwrap()
}

/// The pages' contents after copying the chunks into zeroes.
fn contents(image: &[u8], pages: &Vec<Page>, chunks: &[Chunk]) -> Vec<Vec<u8>> {
    let mut frames = vec![vec![0u8; MEGAPAGE_SIZE as usize]; pages.len()];
    for c in chunks {
        let from = c.file_offset as usize;
        let to = c.within_page as usize;
        let len = c.len as usize;
        frames[c.page as usize][to..to + len].copy_from_slice(&image[from..from + len]);
    }
    frames
}

#[test]
fn one_small_segment_takes_one_page() {
    let image = elf(&[segment(PF_R | PF_X, 0x8400_1000, &[1, 2, 3], 16)]);
    let table = pages(&image).unwrap();
    assert_eq!(table, vec![Page { vaddr: 0x8400_0000, perms: PERM_U | PERM_R | PERM_X }]);
    let chunks = plan_chunks(&image, &header(&image), &table);
    assert_eq!(chunks, vec![Chunk { page: 0, within_page: 0x1000, file_offset: 120, len: 3 }]);
    assert_eq!(&image[120..123], &[1, 2, 3]);
}

#[test]
fn two_segments_in_one_page_share_it_with_both_permissions() {
    let image = elf(&[
        segment(PF_R | PF_X, 0x8400_0000, &[1; 8], 8),
        segment(PF_R | PF_W, 0x8400_2000, &[2; 4], 32),
    ]);
    let table = pages(&image).unwrap();
    assert_eq!(
        table,
        vec![Page { vaddr: 0x8400_0000, perms: PERM_U | PERM_R | PERM_W | PERM_X }]
    );
}

#[test]
fn a_segment_may_span_pages() {
    let data: Vec<u8> = (0..100u8).collect();
    let vaddr = 0x8400_0000 + MEGAPAGE_SIZE - 40;
    let image = elf(&[segment(PF_R, vaddr, &data, MEGAPAGE_SIZE)]);
    let table = pages(&image).unwrap();
    assert_eq!(
        table,
        vec![
            Page { vaddr: 0x8400_0000, perms: PERM_U | PERM_R },
            Page { vaddr: 0x8420_0000, perms: PERM_U | PERM_R },
        ]
    );
    let chunks = plan_chunks(&image, &header(&image), &table);
    assert_eq!(
        chunks,
        vec![
            Chunk { page: 0, within_page: MEGAPAGE_SIZE - 40, file_offset: 120, len: 40 },
            Chunk { page: 1, within_page: 0, file_offset: 160, len: 60 },
        ]
    );
    let frames = contents(&image, &table, &chunks);
    for (i, byte) in data.iter().enumerate() {
        let at = vaddr - 0x8400_0000 + i as u64;
        assert_eq!(frames[(at / MEGAPAGE_SIZE) as usize][(at % MEGAPAGE_SIZE) as usize], *byte);
    }
    assert_eq!(frames[1][60], 0);
    assert_eq!(frames[0][0], 0);
}

#[test]
fn the_last_of_overlapping_segments_wins() {
    let image = elf(&[
        segment(PF_R, 0x8400_0000, &[1; 8], 8),
        segment(PF_W, 0x8400_0004, &[2; 2], 2),
    ]);
    let table = pages(&image).unwrap();
    let frames = contents(&image, &table, &plan_chunks(&image, &header(&image), &table));
    assert_eq!(&frames[0][..10], &[1, 1, 1, 1, 2, 2, 1, 1, 0, 0]);
}

#[test]
fn skipped_segments_take_no_page() {
    let mut stack = segment(PF_R | PF_W, 0x9400_0000, &[], 4096);
    stack.p_type = 0x6474_E551;
    let image = elf(&[stack, segment(PF_R, 0x8400_0000, &[7], 1)]);
    let table = pages(&image).unwrap();
    assert_eq!(table, vec![Page { vaddr: 0x8400_0000, perms: PERM_U | PERM_R }]);
    assert_eq!(plan_chunks(&image, &header(&image), &table).len(), 1);
}

#[test]
fn an_empty_aligned_segment_takes_no_page() {
    let image = elf(&[segment(PF_R, 0x8400_0000, &[], 0)]);
    assert_eq!(pages(&image), Ok(vec![]));
}

#[test]
fn an_empty_unaligned_segment_takes_the_page_it_is_in() {
    let image = elf(&[segment(PF_R, 0x8400_0001, &[], 0)]);
    let table = pages(&image).unwrap();
    assert_eq!(table, vec![Page { vaddr: 0x8400_0000, perms: PERM_U | PERM_R }]);
    assert_eq!(plan_chunks(&image, &header(&image), &table), vec![]);
}

#[test]
fn eight_pages_are_the_most() {
    let most = MAX_PROGRAM_MEGAPAGES as u64 * MEGAPAGE_SIZE;
    let fits = elf(&[segment(PF_R, 0x8400_0000, &[], most)]);
    assert_eq!(pages(&fits).unwrap().len(), 8);
    let over = elf(&[segment(PF_R, 0x8400_0000, &[], most + 1)]);
    assert_eq!(pages(&over), Err(LoadError::TooManyMegapages));
}

#[test]
fn a_segment_past_the_address_range_is_rejected() {
    let wraps = elf(&[segment(PF_R, u64::MAX, &[], 2)]);
    assert_eq!(pages(&wraps), Err(LoadError::AddressOverflow));
    let rounds_past = elf(&[segment(PF_R, u64::MAX - 1, &[], 1)]);
    assert_eq!(pages(&rounds_past), Err(LoadError::AddressOverflow));
    let last = elf(&[segment(PF_R, u64::MAX - 2 * MEGAPAGE_SIZE + 1, &[], MEGAPAGE_SIZE)]);
    assert_eq!(pages(&last).unwrap()[0].vaddr, u64::MAX - 2 * MEGAPAGE_SIZE + 1);
}

#[test]
fn a_bad_program_header_is_the_reason() {
    let mut odd = segment(PF_R, 0x8400_0000, &[], 0);
    odd.p_type = 2;
    let image = elf(&[segment(PF_R, 0x8400_0000, &[1], 1), odd]);
    assert_eq!(
        pages(&image),
        Err(LoadError::ProgramHeader(ElfError::UnsupportedSegmentType(2)))
    );
}

#[test]
fn the_first_reason_counts() {
    let mut odd = segment(PF_R, 0x8400_0000, &[], 0);
    odd.p_type = 2;
    let image = elf(&[segment(PF_R, u64::MAX, &[], 2), odd]);
    assert_eq!(pages(&image), Err(LoadError::AddressOverflow));
}

#[test]
fn permissions_follow_the_flags() {
    let with = |flags| ProgramHeader { flags, offset: 0, vaddr: 0, filesz: 0, memsz: 0 };
    assert_eq!(segment_perms(&with(0)), 8);
    assert_eq!(segment_perms(&with(PF_R)), 9);
    assert_eq!(segment_perms(&with(PF_W)), 10);
    assert_eq!(segment_perms(&with(PF_X)), 12);
    assert_eq!(segment_perms(&with(PF_R | PF_W | PF_X)), 15);
    assert_eq!(segment_perms(&with(0xFFFF_FFF8)), 8);
}

#[test]
fn a_segment_is_rounded_out_to_pages() {
    let ph = |vaddr, memsz| ProgramHeader { flags: 0, offset: 0, vaddr, filesz: 0, memsz };
    assert_eq!(segment_pages(&ph(0x8400_1000, 16)), Some((0x8400_0000, 0x8420_0000)));
    assert_eq!(segment_pages(&ph(0x8420_0000, 0x20_0000)), Some((0x8420_0000, 0x8440_0000)));
    assert_eq!(segment_pages(&ph(u64::MAX, 1)), None);
}

#[test]
fn pages_are_found_by_address() {
    let table = vec![Page { vaddr: 0x20_0000, perms: 9 }, Page { vaddr: 0, perms: 8 }];
    assert_eq!(page_index(&table, 0), Some(1));
    assert_eq!(page_index(&table, 0x20_0000), Some(0));
    assert_eq!(page_index(&table, 0x40_0000), None);
}

#[test]
fn rounding() {
    assert_eq!(round_down(0x8412_3456, MEGAPAGE_SIZE), 0x8400_0000);
    assert_eq!(round_up(0x8412_3456, MEGAPAGE_SIZE), 0x8420_0000);
    assert_eq!(round_up(0x8420_0000, MEGAPAGE_SIZE), 0x8420_0000);
    assert_eq!(round_down(7, 4), 4);
    assert_eq!(round_up(5, 4), 8);
    assert_eq!(round_down(u64::MAX, 1), u64::MAX);
}

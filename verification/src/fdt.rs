//! A minimal flattened-device-tree reader: just enough to find where RAM is.
//!
//! The header is checked, the structure block is walked once, the root node's
//! `#address-cells` and `#size-cells` are honoured, and the first
//! `(base, size)` pair of the first `/memory` node's `reg` is the answer.
//! Everything else in the tree is skipped; anything malformed is an error,
//! never a guess.

use crate::bytes::{
    be_at, be_value, has_prefix, lemma_pow256, lemma_value_bound, read_be, same_bytes,
};
use vstd::prelude::*;

verus! {

/// Why a blob is rejected.
#[derive(Clone, Copy, PartialEq, Eq, Structural, Debug)]
pub enum FdtError {
    TooShortForHeader,
    BadMagic,
    UnsupportedVersion(u32),
    StructBlockOutOfBounds,
    StringsBlockOutOfBounds,
    /// A token, a name or a value ran past its bounds before a `/memory` node
    /// with a usable `reg` was found.
    Truncated,
    NoMemoryNode,
    /// `reg` is too short for one `(address, size)` pair at the declared cell
    /// counts, or a cell count is not supported.
    BadMemoryReg,
}

pub const FDT_MAGIC: u32 = 0xd00d_feed;

pub const FDT_BEGIN_NODE: u32 = 0x1;

pub const FDT_END_NODE: u32 = 0x2;

pub const FDT_PROP: u32 = 0x3;

pub const FDT_NOP: u32 = 0x4;

pub const FDT_END: u32 = 0x9;

pub const FDT_HEADER_SIZE: usize = 40;

/// The first version with the structure-block layout that is read here.
pub const FDT_MIN_VERSION: u32 = 16;

/// The cell counts that hold where the root node declares none.
pub const DEFAULT_ADDRESS_CELLS: u32 = 2;

pub const DEFAULT_SIZE_CELLS: u32 = 1;

/// The big-endian 32-bit word at `off`.
pub open spec fn word(blob: Seq<u8>, off: int) -> nat {
    be_at(blob, off, 4)
}

/// `n` rounded up to a multiple of four.
pub open spec fn aligned4(n: int) -> int {
    (n + 3) / 4 * 4
}

/// The position of the first zero byte of `s` in `[from, to)`.
pub open spec fn first_nul(s: Seq<u8>, from: int, to: int) -> Option<int>
    decreases to - from,
{
    if from >= to {
        None
    } else if s[from] == 0 {
        Some(from)
    } else {
        first_nul(s, from + 1, to)
    }
}

/// `first_nul` finds a zero byte, no earlier byte is zero, and it finds nothing
/// only where there is none.
pub proof fn lemma_first_nul(s: Seq<u8>, from: int, to: int)
    ensures
        first_nul(s, from, to) matches Some(end) ==> from <= end < to && s[end] == 0 && (forall|
            i: int,
        |
            from <= i < end ==> s[i] != 0),
        first_nul(s, from, to) is None ==> forall|i: int| from <= i < to ==> s[i] != 0,
    decreases to - from,
{
    if from < to && s[from] != 0 {
        lemma_first_nul(s, from + 1, to);
    }
}

/// Where the parts of a blob lie, as its header says: the structure block, and
/// the start of the strings block.
#[derive(Clone, Copy, PartialEq, Eq, Structural, Debug)]
pub struct Layout {
    pub struct_start: u64,
    pub struct_end: u64,
    pub strings: u64,
}

impl Layout {
    /// Both blocks lie inside a blob of `len` bytes, at places that 32-bit
    /// header words can name.
    pub open spec fn fits(self, len: int) -> bool {
        &&& self.struct_start <= self.struct_end <= len
        &&& self.struct_end <= 0x2_0000_0000
        &&& self.strings <= len
        &&& self.strings <= 0xFFFF_FFFF
    }
}

/// One token of the structure block.
pub enum TokenView {
    BeginNode(Seq<u8>),
    EndNode,
    Property(Seq<u8>, Seq<u8>),
    Nop,
    End,
}

/// The token at `cursor` and the position of the one after it. Tokens, with the
/// names and values in them, are bounded by the structure block, and property
/// names by the strings block.
pub open spec fn token_at(blob: Seq<u8>, layout: Layout, cursor: int) -> Result<
    (TokenView, int),
    FdtError,
> {
    let body = cursor + 4;
    if body > layout.struct_end {
        Err(FdtError::Truncated)
    } else if word(blob, cursor) == FDT_BEGIN_NODE {
        match first_nul(blob, body, layout.struct_end as int) {
            None => Err(FdtError::Truncated),
            Some(end) => Ok((TokenView::BeginNode(blob.subrange(body, end)), aligned4(end + 1))),
        }
    } else if word(blob, cursor) == FDT_END_NODE {
        Ok((TokenView::EndNode, body))
    } else if word(blob, cursor) == FDT_PROP {
        if body + 8 > layout.struct_end || body + 8 + word(blob, body) > layout.struct_end {
            Err(FdtError::Truncated)
        } else {
            let value_end = body + 8 + word(blob, body);
            let name = layout.strings + word(blob, body + 4);
            match first_nul(blob, name, blob.len() as int) {
                None => Err(FdtError::StringsBlockOutOfBounds),
                Some(end) => Ok(
                    (
                        TokenView::Property(
                            blob.subrange(name, end),
                            blob.subrange(body + 8, value_end),
                        ),
                        aligned4(value_end),
                    ),
                ),
            }
        }
    } else if word(blob, cursor) == FDT_NOP {
        Ok((TokenView::Nop, body))
    } else if word(blob, cursor) == FDT_END {
        Ok((TokenView::End, body))
    } else {
        Err(FdtError::Truncated)
    }
}

/// A token ends after it starts, at least one word further on.
pub proof fn lemma_token_progress(blob: Seq<u8>, layout: Layout, cursor: int)
    ensures
        token_at(blob, layout, cursor) matches Ok((_, next)) ==> cursor + 4 <= next && cursor + 4
            <= layout.struct_end,
{
    lemma_first_nul(blob, cursor + 4, layout.struct_end as int);
}

/// `memory`.
pub open spec fn memory_name() -> Seq<u8> {
    seq![0x6d, 0x65, 0x6d, 0x6f, 0x72, 0x79]
}

/// `memory@`.
pub open spec fn memory_at_prefix() -> Seq<u8> {
    seq![0x6d, 0x65, 0x6d, 0x6f, 0x72, 0x79, 0x40]
}

/// `reg`.
pub open spec fn reg_name() -> Seq<u8> {
    seq![0x72, 0x65, 0x67]
}

/// `#address-cells`.
pub open spec fn address_cells_name() -> Seq<u8> {
    seq![0x23, 0x61, 0x64, 0x64, 0x72, 0x65, 0x73, 0x73, 0x2d, 0x63, 0x65, 0x6c, 0x6c, 0x73]
}

/// `#size-cells`.
pub open spec fn size_cells_name() -> Seq<u8> {
    seq![0x23, 0x73, 0x69, 0x7a, 0x65, 0x2d, 0x63, 0x65, 0x6c, 0x6c, 0x73]
}

/// The name of a memory node: `memory`, or `memory@` and an address.
pub open spec fn is_memory_name(name: Seq<u8>) -> bool {
    name == memory_name() || memory_at_prefix().is_prefix_of(name)
}

/// The first `(address, size)` pair of a `reg` value, each part one or two
/// big-endian 32-bit cells.
pub open spec fn reg_of(value: Seq<u8>, addr_cells: u32, size_cells: u32) -> Result<
    (u64, u64),
    FdtError,
> {
    let addr_bytes = addr_cells * 4;
    let size_bytes = size_cells * 4;
    if !(1 <= addr_cells <= 2) || !(1 <= size_cells <= 2) {
        Err(FdtError::BadMemoryReg)
    } else if value.len() < addr_bytes + size_bytes {
        Err(FdtError::BadMemoryReg)
    } else {
        Ok(
            (
                be_value(value.subrange(0, addr_bytes)) as u64,
                be_value(value.subrange(addr_bytes, addr_bytes + size_bytes)) as u64,
            ),
        )
    }
}

/// What the walk over the structure block has learnt so far.
pub struct Walk {
    /// Nodes that are open.
    pub depth: int,
    pub addr_cells: u32,
    pub size_cells: u32,
    /// The walk is among the properties of a memory node below the root.
    pub in_memory_node: bool,
}

/// Before the first token.
pub open spec fn walk_start() -> Walk {
    Walk {
        depth: 0,
        addr_cells: DEFAULT_ADDRESS_CELLS,
        size_cells: DEFAULT_SIZE_CELLS,
        in_memory_node: false,
    }
}

/// A property updates a cell count.
pub open spec fn cells_after(cells: u32, wanted: Seq<u8>, name: Seq<u8>, value: Seq<u8>) -> u32 {
    if name == wanted && value.len() == 4 {
        be_value(value) as u32
    } else {
        cells
    }
}

/// What a token ends the walk with, or nothing where the walk goes on.
pub open spec fn verdict(walk: Walk, token: TokenView) -> Option<Result<(u64, u64), FdtError>> {
    match token {
        TokenView::EndNode => if walk.depth == 1 {
            Some(Err(FdtError::NoMemoryNode))
        } else {
            None
        },
        TokenView::Property(name, value) => if walk.depth != 1 && walk.in_memory_node && name
            == reg_name() {
            Some(reg_of(value, walk.addr_cells, walk.size_cells))
        } else {
            None
        },
        TokenView::End => Some(Err(FdtError::NoMemoryNode)),
        _ => None,
    }
}

/// The walk after a token that does not end it.
pub open spec fn advance(walk: Walk, token: TokenView) -> Walk {
    match token {
        TokenView::BeginNode(name) => Walk {
            depth: walk.depth + 1,
            in_memory_node: walk.depth + 1 == 2 && is_memory_name(name),
            ..walk
        },
        TokenView::EndNode => Walk { depth: walk.depth - 1, in_memory_node: false, ..walk },
        TokenView::Property(name, value) => if walk.depth == 1 {
            Walk {
                addr_cells: cells_after(walk.addr_cells, address_cells_name(), name, value),
                size_cells: cells_after(walk.size_cells, size_cells_name(), name, value),
                ..walk
            }
        } else {
            walk
        },
        _ => walk,
    }
}

/// What the walk from `cursor` on finds.
pub open spec fn walk_from(blob: Seq<u8>, layout: Layout, cursor: int, walk: Walk) -> Result<
    (u64, u64),
    FdtError,
>
    decreases
            (if cursor <= layout.struct_end {
                layout.struct_end + 1 - cursor
            } else {
                0
            }),
{
    proof {
        lemma_token_progress(blob, layout, cursor);
    }
    match token_at(blob, layout, cursor) {
        Err(error) => Err(error),
        Ok((token, next)) => match verdict(walk, token) {
            Some(found) => found,
            None => walk_from(blob, layout, next, advance(walk, token)),
        },
    }
}

/// Where the header of `blob` puts its parts, or the first reason to reject
/// it.
pub open spec fn layout_of(blob: Seq<u8>) -> Result<Layout, FdtError> {
    if blob.len() < FDT_HEADER_SIZE {
        Err(FdtError::TooShortForHeader)
    } else if word(blob, 0) != FDT_MAGIC {
        Err(FdtError::BadMagic)
    } else if word(blob, 20) < FDT_MIN_VERSION {
        Err(FdtError::UnsupportedVersion(word(blob, 20) as u32))
    } else {
        let struct_start = word(blob, 8);
        let struct_end = struct_start + word(blob, 36);
        let strings = word(blob, 12);
        if struct_end > blob.len() || strings > blob.len() {
            Err(FdtError::StructBlockOutOfBounds)
        } else {
            Ok(
                Layout {
                    struct_start: struct_start as u64,
                    struct_end: struct_end as u64,
                    strings: strings as u64,
                },
            )
        }
    }
}

/// The RAM range that `blob` declares, or the reason why it declares none.
pub open spec fn ram_region_of(blob: Seq<u8>) -> Result<(u64, u64), FdtError> {
    match layout_of(blob) {
        Err(error) => Err(error),
        Ok(layout) => walk_from(blob, layout, layout.struct_start as int, walk_start()),
    }
}

/// The length that the header of `blob` declares.
pub open spec fn total_size_of(blob: Seq<u8>) -> Result<usize, FdtError> {
    if blob.len() < 4 || word(blob, 0) != FDT_MAGIC {
        Err(FdtError::BadMagic)
    } else if blob.len() < 8 {
        Err(FdtError::TooShortForHeader)
    } else {
        Ok(word(blob, 4) as usize)
    }
}

/// Reads the big-endian 32-bit word at `off`, where there is one.
pub fn be32(bytes: &[u8], off: u64) -> (value: Option<u32>)
    ensures
        value is Some <==> off + 4 <= bytes@.len(),
        value matches Some(v) ==> v == word(bytes@, off as int),
{
    proof {
        lemma_pow256();
    }
    match read_be(bytes, off, 4) {
        Some(v) => Some(v as u32),
        None => None,
    }
}

/// Rounds `n` up to a multiple of four.
pub fn align4(n: u64) -> (aligned: u64)
    requires
        n + 3 <= u64::MAX,
    ensures
        aligned == aligned4(n as int),
        aligned % 4 == 0,
        n <= aligned < n + 4,
{
    let m: u64 = (n + 3) as u64;
    assert(m & !3u64 == m / 4 * 4) by (bit_vector);
    m & !3u64
}

/// The position of the first zero byte of `s` in `[from, to)`.
fn find_nul(s: &[u8], from: u64, to: u64) -> (position: Option<u64>)
    requires
        to <= s@.len(),
    ensures
        position is Some <==> first_nul(s@, from as int, to as int) is Some,
        position matches Some(p) ==> first_nul(s@, from as int, to as int) == Some(p as int),
{
    let mut i: u64 = from;
    assert(s.len() == s@.len());
    while i < to
        invariant
            from <= i,
            to <= s@.len() <= usize::MAX,
            first_nul(s@, from as int, to as int) == first_nul(s@, i as int, to as int),
        decreases to - i,
    {
        if s[i as usize] == 0 {
            return Some(i);
        }
        i = i + 1;
    }
    None
}

/// The number that the cells in `bytes` spell, big-endian; of more than eight
/// bytes only the last eight count.
pub fn read_cells(bytes: &[u8]) -> (value: u64)
    ensures
        value == be_value(bytes@) % 0x1_0000_0000_0000_0000,
        bytes@.len() <= 8 ==> value == be_value(bytes@),
{
    let mut acc: u64 = 0;
    let mut i: usize = 0;
    assert(bytes@.subrange(0, 0).len() == 0);
    while i < bytes.len()
        invariant
            i <= bytes@.len(),
            acc == be_value(bytes@.subrange(0, i as int)) % 0x1_0000_0000_0000_0000,
        decreases bytes@.len() - i,
    {
        let b: u64 = bytes[i] as u64;
        proof {
            let head = bytes@.subrange(0, i + 1);
            assert(head.drop_last() =~= bytes@.subrange(0, i as int));
            assert(head.last() == b);
            assert((acc << 8) | b == (acc % 0x100_0000_0000_0000) * 256 + b) by (bit_vector)
                requires
                    b < 256,
            ;
        }
        acc = (acc << 8) | b;
        i = i + 1;
    }
    proof {
        assert(bytes@.subrange(0, bytes@.len() as int) =~= bytes@);
        if bytes@.len() <= 8 {
            lemma_value_bound(bytes@);
            lemma_pow256();
            vstd::arithmetic::power::lemma_pow_increases(256, bytes@.len(), 8);
        }
    }
    acc
}

/// The first `(address, size)` pair of a `reg` value.
pub fn read_reg(value: &[u8], addr_cells: u32, size_cells: u32) -> (result: Result<
    (u64, u64),
    FdtError,
>)
    ensures
        result == reg_of(value@, addr_cells, size_cells),
{
    if addr_cells < 1 || addr_cells > 2 || size_cells < 1 || size_cells > 2 {
        return Err(FdtError::BadMemoryReg);
    }
    let addr_bytes: usize = addr_cells as usize * 4;
    let size_bytes: usize = size_cells as usize * 4;
    if value.len() < addr_bytes + size_bytes {
        return Err(FdtError::BadMemoryReg);
    }
    let base: u64 = read_cells(&value[0..addr_bytes]);
    let size: u64 = read_cells(&value[addr_bytes..addr_bytes + size_bytes]);
    Ok((base, size))
}

/// One token of the structure block, with what it names still in the blob.
#[derive(Clone, Copy, Debug)]
pub enum Token<'a> {
    BeginNode(&'a [u8]),
    EndNode,
    Property(&'a [u8], &'a [u8]),
    Nop,
    End,
}

impl<'a> View for Token<'a> {
    type V = TokenView;

    open spec fn view(&self) -> TokenView {
        match *self {
            Token::BeginNode(name) => TokenView::BeginNode(name@),
            Token::EndNode => TokenView::EndNode,
            Token::Property(name, value) => TokenView::Property(name@, value@),
            Token::Nop => TokenView::Nop,
            Token::End => TokenView::End,
        }
    }
}

/// Reads the token at `cursor`, and where the next one starts.
pub fn read_token<'a>(fdt: &'a [u8], layout: &Layout, cursor: u64) -> (result: Result<
    (Token<'a>, u64),
    FdtError,
>)
    requires
        layout.fits(fdt@.len() as int),
    ensures
        (match result {
            Ok((token, next)) => token_at(fdt@, *layout, cursor as int) == Ok::<
                (TokenView, int),
                FdtError,
            >((token@, next as int)),
            Err(error) => token_at(fdt@, *layout, cursor as int) == Err::<
                (TokenView, int),
                FdtError,
            >(error),
        }),
{
    let len: u64 = fdt.len() as u64;
    if cursor > layout.struct_end || layout.struct_end - cursor < 4 {
        return Err(FdtError::Truncated);
    }
    let token: u32 = be32(fdt, cursor).unwrap();
    let body: u64 = cursor + 4;
    if token == FDT_BEGIN_NODE {
        proof {
            lemma_first_nul(fdt@, body as int, layout.struct_end as int);
        }
        let name_end: u64 = match find_nul(fdt, body, layout.struct_end) {
            Some(end) => end,
            None => return Err(FdtError::Truncated),
        };
        let name = &fdt[body as usize..name_end as usize];
        Ok((Token::BeginNode(name), align4(name_end + 1)))
    } else if token == FDT_END_NODE {
        Ok((Token::EndNode, body))
    } else if token == FDT_PROP {
        if layout.struct_end - body < 8 {
            return Err(FdtError::Truncated);
        }
        let value_len: u64 = be32(fdt, body).unwrap() as u64;
        let name_off: u64 = be32(fdt, body + 4).unwrap() as u64;
        let value_start: u64 = body + 8;
        let value_end: u64 = value_start + value_len;
        if value_end > layout.struct_end {
            return Err(FdtError::Truncated);
        }
        let value = &fdt[value_start as usize..value_end as usize];
        let name_start: u64 = layout.strings + name_off;
        proof {
            lemma_first_nul(fdt@, name_start as int, len as int);
        }
        let name_end: u64 = match find_nul(fdt, name_start, len) {
            Some(end) => end,
            None => return Err(FdtError::StringsBlockOutOfBounds),
        };
        let name = &fdt[name_start as usize..name_end as usize];
        Ok((Token::Property(name, value), align4(value_end)))
    } else if token == FDT_NOP {
        Ok((Token::Nop, body))
    } else if token == FDT_END {
        Ok((Token::End, body))
    } else {
        Err(FdtError::Truncated)
    }
}

/// Checks the header and says where the parts of the blob lie.
pub fn parse_layout(fdt: &[u8]) -> (result: Result<Layout, FdtError>)
    ensures
        result == layout_of(fdt@),
        result matches Ok(layout) ==> layout.fits(fdt@.len() as int),
{
    if fdt.len() < FDT_HEADER_SIZE {
        return Err(FdtError::TooShortForHeader);
    }
    let len: u64 = fdt.len() as u64;
    let magic: u32 = be32(fdt, 0).unwrap();
    if magic != FDT_MAGIC {
        return Err(FdtError::BadMagic);
    }
    let version: u32 = be32(fdt, 20).unwrap();
    if version < FDT_MIN_VERSION {
        return Err(FdtError::UnsupportedVersion(version));
    }
    let struct_start: u64 = be32(fdt, 8).unwrap() as u64;
    let strings: u64 = be32(fdt, 12).unwrap() as u64;
    let struct_end: u64 = struct_start + be32(fdt, 36).unwrap() as u64;
    if struct_end > len || strings > len {
        return Err(FdtError::StructBlockOutOfBounds);
    }
    Ok(Layout { struct_start, struct_end, strings })
}

/// Whether `name` names a memory node.
fn names_memory(name: &[u8]) -> (found: bool)
    ensures
        found == is_memory_name(name@),
{
    let plain: [u8; 6] = [0x6d, 0x65, 0x6d, 0x6f, 0x72, 0x79];
    let with_address: [u8; 7] = [0x6d, 0x65, 0x6d, 0x6f, 0x72, 0x79, 0x40];
    assert(plain@ =~= memory_name());
    assert(with_address@ =~= memory_at_prefix());
    same_bytes(name, plain.as_slice()) || has_prefix(name, with_address.as_slice())
}

/// Whether `name` is `reg`.
fn names_reg(name: &[u8]) -> (found: bool)
    ensures
        found == (name@ == reg_name()),
{
    let wanted: [u8; 3] = [0x72, 0x65, 0x67];
    assert(wanted@ =~= reg_name());
    same_bytes(name, wanted.as_slice())
}

/// Whether `name` is `#address-cells`.
fn names_address_cells(name: &[u8]) -> (found: bool)
    ensures
        found == (name@ == address_cells_name()),
{
    let wanted: [u8; 14] = [
        0x23,
        0x61,
        0x64,
        0x64,
        0x72,
        0x65,
        0x73,
        0x73,
        0x2d,
        0x63,
        0x65,
        0x6c,
        0x6c,
        0x73,
    ];
    assert(wanted@ =~= address_cells_name());
    same_bytes(name, wanted.as_slice())
}

/// Whether `name` is `#size-cells`.
fn names_size_cells(name: &[u8]) -> (found: bool)
    ensures
        found == (name@ == size_cells_name()),
{
    let wanted: [u8; 11] = [
        0x23,
        0x73,
        0x69,
        0x7a,
        0x65,
        0x2d,
        0x63,
        0x65,
        0x6c,
        0x6c,
        0x73,
    ];
    assert(wanted@ =~= size_cells_name());
    same_bytes(name, wanted.as_slice())
}

/// Finds the RAM range `(base, size)` that the blob declares.
pub fn parse_ram_region(fdt: &[u8]) -> (result: Result<(u64, u64), FdtError>)
    ensures
        result == ram_region_of(fdt@),
{
    let layout: Layout = match parse_layout(fdt) {
        Ok(layout) => layout,
        Err(error) => return Err(error),
    };
    let mut cursor: u64 = layout.struct_start;
    let mut depth: i64 = 0;
    let mut addr_cells: u32 = DEFAULT_ADDRESS_CELLS;
    let mut size_cells: u32 = DEFAULT_SIZE_CELLS;
    let mut in_memory_node: bool = false;
    loop
        invariant
            layout.fits(fdt@.len() as int),
            -cursor <= depth * 4 <= cursor,
            layout_of(fdt@) == Ok::<Layout, FdtError>(layout),
            ram_region_of(fdt@) == walk_from(
                fdt@,
                layout,
                cursor as int,
                Walk { depth: depth as int, addr_cells, size_cells, in_memory_node },
            ),
        decreases
                (if cursor <= layout.struct_end {
                    layout.struct_end + 1 - cursor
                } else {
                    0
                }),
    {
        proof {
            lemma_token_progress(fdt@, layout, cursor as int);
        }
        let (token, next): (Token, u64) = match read_token(fdt, &layout, cursor) {
            Ok(found) => found,
            Err(error) => return Err(error),
        };
        match token {
            Token::BeginNode(name) => {
                depth = depth + 1;
                in_memory_node = depth == 2 && names_memory(name);
            },
            Token::EndNode => {
                depth = depth - 1;
                in_memory_node = false;
                if depth == 0 {
                    return Err(FdtError::NoMemoryNode);
                }
            },
            Token::Property(name, value) => {
                if depth == 1 {
                    if names_address_cells(name) && value.len() == 4 {
                        addr_cells = be32(value, 0).unwrap();
                    } else if names_size_cells(name) && value.len() == 4 {
                        size_cells = be32(value, 0).unwrap();
                    }
                    assert(value@.len() == 4 ==> value@.subrange(0, 4) =~= value@);
                    assert(address_cells_name()[1] != size_cells_name()[1]);
                } else if in_memory_node && names_reg(name) {
                    return read_reg(value, addr_cells, size_cells);
                }
            },
            Token::Nop => {},
            Token::End => {
                return Err(FdtError::NoMemoryNode);
            },
        }
        cursor = next;
    }
}

/// The length that the header declares, so that a caller with only the start
/// of a blob learns how much of it there is to read.
pub fn total_size(header: &[u8]) -> (result: Result<usize, FdtError>)
    ensures
        result == total_size_of(header@),
{
    match be32(header, 0) {
        Some(magic) => {
            if magic != FDT_MAGIC {
                return Err(FdtError::BadMagic);
            }
        },
        None => return Err(FdtError::BadMagic),
    }
    match be32(header, 4) {
        Some(size) => Ok(size as usize),
        None => Err(FdtError::TooShortForHeader),
    }
}

/// The RAM range `(base, size)` that the blob at the start of `memory`
/// declares: the blob is as long as its own header says. `None` where it is
/// malformed, or longer than `memory`; a caller then falls back to a fixed
/// range.
pub fn ram_region(memory: &[u8]) -> (region: Option<(u64, u64)>)
    ensures
        region == (match total_size_of(memory@) {
            Ok(size) => if size <= memory@.len() {
                match ram_region_of(memory@.subrange(0, size as int)) {
                    Ok(found) => Some(found),
                    Err(_) => None,
                }
            } else {
                None
            },
            Err(_) => None,
        }),
{
    match total_size(memory) {
        Ok(size) => {
            if size > memory.len() {
                return None;
            }
            match parse_ram_region(&memory[0..size]) {
                Ok(found) => Some(found),
                Err(_) => None,
            }
        },
        Err(_) => None,
    }
}

} // verus!

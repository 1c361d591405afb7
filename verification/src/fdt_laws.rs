//! What a device tree's RAM range is, stated over the tree's tokens.

use crate::bytes::{be_value, lemma_pow256, lemma_value_bound};
use crate::fdt::{
    address_cells_name, advance, cells_after, first_nul, is_memory_name, layout_of,
    lemma_first_nul, lemma_token_progress, memory_at_prefix, memory_name, parse_layout,
    parse_ram_region, ram_region, ram_region_of, read_token, reg_name, reg_of, size_cells_name,
    token_at, total_size, verdict, walk_from, walk_start, word, FdtError, Layout, Token, TokenView,
    Walk,
    DEFAULT_ADDRESS_CELLS, DEFAULT_SIZE_CELLS, FDT_PROP,
};
use vstd::prelude::*;

verus! {

/// The four bytes at `o`, the highest first, as a number.
pub open spec fn be32_at(s: Seq<u8>, o: int) -> int {
    0x100_0000 * s[o] + 0x1_0000 * s[o + 1] + 0x100 * s[o + 2] + s[o + 3]
}

/// The eight bytes at `o`, the highest first, as a number.
pub open spec fn be64_at(s: Seq<u8>, o: int) -> int {
    0x1_0000_0000 * be32_at(s, o) + be32_at(s, o + 4)
}

/// The bytes at `o` are `name`, and a zero byte ends it: the first there is.
pub open spec fn names_at(s: Seq<u8>, o: int, name: Seq<u8>) -> bool {
    &&& o + name.len() < s.len()
    &&& s.subrange(o, o + name.len()) == name
    &&& s[o + name.len()] == 0
    &&& forall|i: int| 0 <= i < name.len() ==> #[trigger] name[i] != 0
}

/// `next` is `end`, padded to a multiple of four.
pub open spec fn padded(end: int, next: int) -> bool {
    next % 4 == 0 && end <= next < end + 4
}

/// `token` is written at `cursor`, and the next one would be at `next`. Its tag
/// comes first, a big-endian word: 1 begins a node, whose name follows; 2 ends
/// one; 3 is a property, with the length of its value, the place of its name
/// among the strings, and its value; 4 is nothing; 9 ends it all. What has a
/// length of its own is padded. All but the names of properties lies in the
/// structure block.
pub open spec fn spells(
    blob: Seq<u8>,
    layout: Layout,
    cursor: int,
    token: TokenView,
    next: int,
) -> bool {
    let tag = be32_at(blob, cursor);
    cursor + 4 <= layout.struct_end && match token {
        TokenView::BeginNode(name) => {
            &&& tag == 1
            &&& names_at(blob, cursor + 4, name)
            &&& cursor + 4 + name.len() < layout.struct_end
            &&& padded(cursor + 4 + name.len() + 1, next)
        },
        TokenView::EndNode => tag == 2 && next == cursor + 4,
        TokenView::Property(name, value) => {
            &&& tag == 3
            &&& cursor + 12 + value.len() <= layout.struct_end
            &&& be32_at(blob, cursor + 4) == value.len()
            &&& blob.subrange(cursor + 12, cursor + 12 + value.len()) == value
            &&& names_at(blob, layout.strings + be32_at(blob, cursor + 8), name)
            &&& padded(cursor + 12 + value.len(), next)
        },
        TokenView::Nop => tag == 4 && next == cursor + 4,
        TokenView::End => tag == 9 && next == cursor + 4,
    }
}

/// A word read as digits is the number that its bytes spell.
pub proof fn lemma_be_spelled(s: Seq<u8>, o: int)
    requires
        0 <= o,
        o + 4 <= s.len(),
    ensures
        word(s, o) == be32_at(s, o),
        be_value(s.subrange(o, o + 4)) == be32_at(s, o),
        o + 8 <= s.len() ==> be_value(s.subrange(o, o + 8)) == be64_at(s, o),
{
    let w = s.subrange(o, o + 4);
    reveal_with_fuel(be_value, 9);
    assert(w.drop_last() =~= s.subrange(o, o + 3));
    assert(s.subrange(o, o + 3).drop_last() =~= s.subrange(o, o + 2));
    assert(s.subrange(o, o + 2).drop_last() =~= s.subrange(o, o + 1));
    assert(s.subrange(o, o + 1).drop_last() =~= Seq::empty());
    if o + 8 <= s.len() {
        assert(s.subrange(o, o + 8).drop_last() =~= s.subrange(o, o + 7));
        assert(s.subrange(o, o + 7).drop_last() =~= s.subrange(o, o + 6));
        assert(s.subrange(o, o + 6).drop_last() =~= s.subrange(o, o + 5));
        assert(s.subrange(o, o + 5).drop_last() =~= s.subrange(o, o + 4));
    }
}

/// A name ends at the first zero byte.
proof fn lemma_name(s: Seq<u8>, o: int, to: int, name: Seq<u8>)
    requires
        0 <= o,
        to <= s.len(),
    ensures
        first_nul(s, o, to) matches Some(end) ==> o <= end < to && names_at(
            s,
            o,
            s.subrange(o, end),
        ),
        names_at(s, o, name) && o + name.len() < to ==> first_nul(s, o, to) == Some(
            o + name.len(),
        ) && s.subrange(o, o + name.len()) == name,
{
    lemma_first_nul(s, o, to);
    if let Some(end) = first_nul(s, o, to) {
        let found = s.subrange(o, end);
        assert(found.len() == end - o);
        assert forall|i: int| 0 <= i < found.len() implies #[trigger] found[i] != 0 by {
            assert(found[i] == s[o + i]);
        }
        assert(s.subrange(o, o + found.len()) =~= found);
    }
    if names_at(s, o, name) && o + name.len() < to {
        assert forall|i: int| o <= i < o + name.len() implies s[i] != 0 by {
            assert(s.subrange(o, o + name.len())[i - o] == s[i]);
            assert(name[i - o] != 0);
        }
        if let Some(end) = first_nul(s, o, to) {
            assert(end == o + name.len());
        }
    }
}

/// The token that is read at `cursor` is the one that is written there.
proof fn lemma_token_spelled(
    blob: Seq<u8>,
    layout: Layout,
    cursor: int,
    token: TokenView,
    next: int,
)
    requires
        0 <= cursor,
        layout.struct_end <= blob.len(),
    ensures
        spells(blob, layout, cursor, token, next) <==> token_at(blob, layout, cursor) == Ok::<
            (TokenView, int),
            FdtError,
        >((token, next)),
{
    let body = cursor + 4;
    if body <= layout.struct_end {
        lemma_be_spelled(blob, cursor);
        let end = layout.struct_end as int;
        if word(blob, cursor) == 1 {
            match token {
                TokenView::BeginNode(name) => {
                    lemma_name(blob, body, end, name);
                },
                _ => {},
            }
        }
        if word(blob, cursor) == 3 && body + 8 <= end {
            lemma_be_spelled(blob, body);
            lemma_be_spelled(blob, body + 4);
            let at = layout.strings + word(blob, body + 4);
            match token {
                TokenView::Property(name, value) => {
                    lemma_name(blob, at, blob.len() as int, name);
                },
                _ => {},
            }
        }
    }
}

/// From `cursor` up to `end`, `tokens` are written, one after the other.
pub open spec fn written(
    blob: Seq<u8>,
    layout: Layout,
    cursor: int,
    tokens: Seq<TokenView>,
    end: int,
) -> bool
    decreases tokens.len(),
{
    if tokens.len() == 0 {
        cursor == end
    } else {
        exists|next: int| #[trigger]
            spells(blob, layout, cursor, tokens[0], next) && written(
                blob,
                layout,
                next,
                tokens.drop_first(),
                end,
            )
    }
}

/// The tokens of `blob` from `cursor` on begin with `tokens`.
pub open spec fn reads_as(
    blob: Seq<u8>,
    layout: Layout,
    cursor: int,
    tokens: Seq<TokenView>,
) -> bool
    decreases tokens.len(),
{
    tokens.len() == 0 || (token_at(blob, layout, cursor) matches Ok((token, next)) && token
        == tokens[0] && reads_as(blob, layout, next, tokens.drop_first()))
}

/// What is written is read.
proof fn lemma_written(
    blob: Seq<u8>,
    layout: Layout,
    cursor: int,
    tokens: Seq<TokenView>,
    end: int,
)
    requires
        0 <= cursor,
        layout.struct_end <= blob.len(),
        written(blob, layout, cursor, tokens, end),
    ensures
        reads_as(blob, layout, cursor, tokens),
    decreases tokens.len(),
{
    if tokens.len() > 0 {
        let next = choose|next: int| #[trigger]
            spells(blob, layout, cursor, tokens[0], next) && written(
                blob,
                layout,
                next,
                tokens.drop_first(),
                end,
            );
        lemma_token_spelled(blob, layout, cursor, tokens[0], next);
        lemma_token_progress(blob, layout, cursor);
        lemma_written(blob, layout, next, tokens.drop_first(), end);
    }
}

/// What is read is written.
proof fn lemma_read(blob: Seq<u8>, layout: Layout, cursor: int, tokens: Seq<TokenView>) -> (end:
    int)
    requires
        0 <= cursor,
        layout.struct_end <= blob.len(),
        reads_as(blob, layout, cursor, tokens),
    ensures
        written(blob, layout, cursor, tokens, end),
        0 <= end,
    decreases tokens.len(),
{
    if tokens.len() == 0 {
        cursor
    } else {
        let (token, next) = token_at(blob, layout, cursor)->Ok_0;
        lemma_token_spelled(blob, layout, cursor, token, next);
        lemma_token_progress(blob, layout, cursor);
        let end = lemma_read(blob, layout, next, tokens.drop_first());
        assert(spells(blob, layout, cursor, tokens[0], next));
        end
    }
}

/// `memory`, alone or with `@` and an address.
pub open spec fn memory_like(name: Seq<u8>) -> bool {
    let memory = seq![0x6du8, 0x65, 0x6d, 0x6f, 0x72, 0x79];
    name.len() >= 6 && name.take(6) == memory && (name.len() == 6 || name[6] == 0x40)
}

/// `reg`.
pub open spec fn reg_word() -> Seq<u8> {
    seq![0x72u8, 0x65, 0x67]
}

/// `#address-cells`.
pub open spec fn address_cells_word() -> Seq<u8> {
    seq![0x23u8, 0x61, 0x64, 0x64, 0x72, 0x65, 0x73, 0x73, 0x2d, 0x63, 0x65, 0x6c, 0x6c, 0x73]
}

/// `#size-cells`.
pub open spec fn size_cells_word() -> Seq<u8> {
    seq![0x23u8, 0x73, 0x69, 0x7a, 0x65, 0x2d, 0x63, 0x65, 0x6c, 0x6c, 0x73]
}

/// The number that one cell or two spell at `o`.
pub open spec fn cells_at(value: Seq<u8>, o: int, cells: u32) -> int {
    if cells == 1 {
        be32_at(value, o)
    } else {
        be64_at(value, o)
    }
}

/// The address and the size that a `reg` begins with: each one or two cells, and
/// both must be there.
pub open spec fn pair_in(value: Seq<u8>, addr_cells: u32, size_cells: u32) -> Result<
    (u64, u64),
    FdtError,
> {
    let readable = (addr_cells == 1 || addr_cells == 2) && (size_cells == 1 || size_cells == 2)
        && 4 * (addr_cells + size_cells) <= value.len();
    if readable {
        Ok(
            (
                cells_at(value, 0, addr_cells) as u64,
                cells_at(value, 4 * addr_cells, size_cells) as u64,
            ),
        )
    } else {
        Err(FdtError::BadMemoryReg)
    }
}

/// The words and numbers that the walk goes by are these.
proof fn lemma_words()
    ensures
        forall|name: Seq<u8>| #[trigger] is_memory_name(name) == memory_like(name),
        reg_name() == reg_word(),
        address_cells_name() == address_cells_word(),
        size_cells_name() == size_cells_word(),
        DEFAULT_ADDRESS_CELLS == 2,
        DEFAULT_SIZE_CELLS == 1,
{
    assert forall|name: Seq<u8>| #[trigger] is_memory_name(name) == memory_like(name) by {
        let memory = seq![0x6du8, 0x65, 0x6d, 0x6f, 0x72, 0x79];
        let with_at = seq![0x6du8, 0x65, 0x6d, 0x6f, 0x72, 0x79, 0x40];
        if name == memory_name() {
            assert(name.take(6) =~= memory);
        }
        if memory_at_prefix().is_prefix_of(name) {
            assert(memory_at_prefix() =~= with_at);
            assert(name.take(7) == with_at);
            assert(name.take(6) =~= name.take(7).take(6));
            assert(with_at.take(6) =~= memory);
            assert(name[6] == name.take(7)[6]);
        }
        if memory_like(name) {
            if name.len() == 6 {
                assert(name =~= name.take(6));
                assert(memory =~= memory_name());
            } else {
                assert(name.take(7) =~= name.take(6).push(name[6]));
                assert(memory.push(0x40u8) =~= memory_at_prefix());
                assert(memory_at_prefix().is_prefix_of(name));
            }
        }
    }
    assert(reg_name() =~= reg_word());
    assert(address_cells_name() =~= address_cells_word());
    assert(size_cells_name() =~= size_cells_word());
}

/// The pair that is found is the one that is spelled.
pub proof fn lemma_pair(value: Seq<u8>, addr_cells: u32, size_cells: u32)
    ensures
        reg_of(value, addr_cells, size_cells) == pair_in(value, addr_cells, size_cells),
{
    if value.len() >= 4 {
        lemma_be_spelled(value, 0);
    }
    if value.len() >= 8 {
        lemma_be_spelled(value, 4);
    }
    if value.len() >= 12 {
        lemma_be_spelled(value, 8);
    }
    assert(reg_of(value, addr_cells, size_cells) == pair_in(value, addr_cells, size_cells));
}

/// The number of nodes that are open before token `k`.
pub open spec fn depth_before(tokens: Seq<TokenView>, k: int) -> int
    decreases k,
{
    if k <= 0 {
        0
    } else {
        depth_before(tokens, k - 1) + (match tokens[k - 1] {
            TokenView::BeginNode(_) => 1,
            TokenView::EndNode => -1int,
            _ => 0,
        })
    }
}

/// Token `b` opens a memory node right below the root.
pub open spec fn opens_memory_node(tokens: Seq<TokenView>, b: int) -> bool {
    tokens[b] matches TokenView::BeginNode(name) && memory_like(name) && depth_before(tokens, b) == 1
}

/// Token `k` stands among the properties at the head of a memory node below
/// the root.
pub open spec fn in_memory_node(tokens: Seq<TokenView>, k: int) -> bool {
    exists|b: int|
        0 <= b < k && #[trigger] opens_memory_node(tokens, b) && forall|j: int|
            b < j < k ==> !(#[trigger] tokens[j] is BeginNode) && !(tokens[j] is EndNode)
}

/// The cell count after a property: what it says, if it is one cell long and has
/// the name that is wanted.
pub open spec fn said_after(cells: u32, wanted: Seq<u8>, name: Seq<u8>, value: Seq<u8>) -> u32 {
    if name == wanted && value.len() == 4 {
        be32_at(value, 0) as u32
    } else {
        cells
    }
}

proof fn lemma_said(cells: u32, wanted: Seq<u8>, name: Seq<u8>, value: Seq<u8>)
    ensures
        cells_after(cells, wanted, name, value) == said_after(cells, wanted, name, value),
{
    if value.len() == 4 {
        lemma_be_spelled(value, 0);
        assert(value.subrange(0, 4) =~= value);
    }
}

/// The cell count in force before token `k`: what the last four-byte property
/// of that name of the root node says.
pub open spec fn cells_before(
    tokens: Seq<TokenView>,
    k: int,
    wanted: Seq<u8>,
    default: u32,
) -> u32
    decreases k,
{
    if k <= 0 {
        default
    } else {
        match tokens[k - 1] {
            TokenView::Property(name, value) if depth_before(tokens, k - 1) == 1 => said_after(
                cells_before(tokens, k - 1, wanted, default),
                wanted,
                name,
                value,
            ),
            _ => cells_before(tokens, k - 1, wanted, default),
        }
    }
}

/// Token `k` is the `reg` of a memory node.
pub open spec fn is_memory_reg(tokens: Seq<TokenView>, k: int) -> bool {
    tokens[k] matches TokenView::Property(name, _) && name == reg_word() && in_memory_node(
        tokens,
        k,
    )
}

/// Token `k` closes the root node or the whole tree.
pub open spec fn closes_tree(tokens: Seq<TokenView>, k: int) -> bool {
    tokens[k] is End || (tokens[k] is EndNode && depth_before(tokens, k) == 1)
}

/// Token `k` is neither a memory node's `reg` nor the close of the tree.
pub open spec fn undecided_at(tokens: Seq<TokenView>, k: int) -> bool {
    !is_memory_reg(tokens, k) && !closes_tree(tokens, k)
}

/// No token before `k` is a memory node's `reg` or closes the tree.
pub open spec fn undecided_before(tokens: Seq<TokenView>, k: int) -> bool {
    forall|j: int| 0 <= j < k ==> #[trigger] undecided_at(tokens, j)
}

/// The state of the walk before token `k`.
pub open spec fn walk_before(tokens: Seq<TokenView>, k: int) -> Walk {
    Walk {
        depth: depth_before(tokens, k),
        addr_cells: cells_before(tokens, k, address_cells_word(), 2),
        size_cells: cells_before(tokens, k, size_cells_word(), 1),
        in_memory_node: in_memory_node(tokens, k),
    }
}

/// A token takes the walk from its state before it to its state after it.
proof fn lemma_walk_step(tokens: Seq<TokenView>, k: int)
    requires
        0 <= k < tokens.len(),
    ensures
        advance(walk_before(tokens, k), tokens[k]) == walk_before(tokens, k + 1),
{
    let before = in_memory_node(tokens, k);
    let after = in_memory_node(tokens, k + 1);
    let walk = walk_before(tokens, k);
    lemma_words();
    if let TokenView::Property(name, value) = tokens[k] {
        lemma_said(walk.addr_cells, address_cells_word(), name, value);
        lemma_said(walk.size_cells, size_cells_word(), name, value);
    }
    if tokens[k] is BeginNode {
        assert(after == opens_memory_node(tokens, k)) by {
            if after {
                let b = choose|b: int|
                    0 <= b < k + 1 && #[trigger] opens_memory_node(tokens, b) && forall|j: int|
                        b < j < k + 1 ==> !(#[trigger] tokens[j] is BeginNode) && !(
                        tokens[j] is EndNode);
                assert(b == k);
            }
        }
    } else if tokens[k] is EndNode {
        assert(!after) by {
            if after {
                let b = choose|b: int|
                    0 <= b < k + 1 && #[trigger] opens_memory_node(tokens, b) && forall|j: int|
                        b < j < k + 1 ==> !(#[trigger] tokens[j] is BeginNode) && !(
                        tokens[j] is EndNode);
                assert(b == k);
            }
        }
    } else {
        assert(after == before) by {
            if before {
                let b = choose|b: int|
                    0 <= b < k && #[trigger] opens_memory_node(tokens, b) && forall|j: int|
                        b < j < k ==> !(#[trigger] tokens[j] is BeginNode) && !(
                        tokens[j] is EndNode);
                assert(opens_memory_node(tokens, b) && b < k + 1);
            }
            if after {
                let b = choose|b: int|
                    0 <= b < k + 1 && #[trigger] opens_memory_node(tokens, b) && forall|j: int|
                        b < j < k + 1 ==> !(#[trigger] tokens[j] is BeginNode) && !(
                        tokens[j] is EndNode);
                assert(opens_memory_node(tokens, b) && b < k);
            }
        }
    }
}

/// Among a memory node's properties exactly two nodes are open.
proof fn lemma_memory_node_depth(tokens: Seq<TokenView>, k: int)
    requires
        0 <= k <= tokens.len(),
        in_memory_node(tokens, k),
    ensures
        depth_before(tokens, k) == 2,
    decreases k,
{
    let b = choose|b: int|
        0 <= b < k && #[trigger] opens_memory_node(tokens, b) && forall|j: int|
            b < j < k ==> !(#[trigger] tokens[j] is BeginNode) && !(tokens[j] is EndNode);
    if b < k - 1 {
        assert(!(tokens[k - 1] is BeginNode) && !(tokens[k - 1] is EndNode));
        assert(in_memory_node(tokens, k - 1)) by {
            assert(opens_memory_node(tokens, b));
        }
        lemma_memory_node_depth(tokens, k - 1);
    }
}

/// A token ends the walk exactly where it is a memory node's `reg` or closes
/// the tree.
proof fn lemma_verdict(tokens: Seq<TokenView>, k: int)
    requires
        0 <= k < tokens.len(),
    ensures
        verdict(walk_before(tokens, k), tokens[k]) is Some <==> is_memory_reg(tokens, k)
            || closes_tree(tokens, k),
        is_memory_reg(tokens, k) ==> !closes_tree(tokens, k),
{
    lemma_words();
    if in_memory_node(tokens, k) {
        lemma_memory_node_depth(tokens, k);
    }
}

/// The walk over undecided tokens changes nothing about what is found.
proof fn lemma_walk_over(
    blob: Seq<u8>,
    layout: Layout,
    tokens: Seq<TokenView>,
    k: int,
    cursor: int,
)
    requires
        0 <= k < tokens.len(),
        reads_as(blob, layout, cursor, tokens.skip(k)),
        undecided_before(tokens, tokens.len() - 1),
    ensures
        verdict(walk_before(tokens, tokens.len() - 1), tokens.last()) matches Some(found)
            ==> walk_from(blob, layout, cursor, walk_before(tokens, k)) == found,
    decreases tokens.len() - k,
{
    assert(tokens.skip(k)[0] == tokens[k]);
    if k < tokens.len() - 1 {
        let (token, next) = token_at(blob, layout, cursor)->Ok_0;
        lemma_verdict(tokens, k);
        assert(undecided_at(tokens, k));
        lemma_walk_step(tokens, k);
        assert(tokens.skip(k).drop_first() =~= tokens.skip(k + 1));
        lemma_walk_over(blob, layout, tokens, k + 1, next);
    }
}

/// The first `reg` of a memory node decides the answer: the range found is the
/// first pair of that `reg`, at the cell counts that the root node has
/// declared by then.
pub proof fn law_first_memory_reg_decides(
    blob: Seq<u8>,
    layout: Layout,
    tokens: Seq<TokenView>,
    end: int,
    value: Seq<u8>,
)
    requires
        layout_of(blob) == Ok::<Layout, FdtError>(layout),
        tokens.len() > 0,
        written(blob, layout, layout.struct_start as int, tokens, end),
        undecided_before(tokens, tokens.len() - 1),
        is_memory_reg(tokens, tokens.len() - 1),
        tokens.last() == TokenView::Property(reg_word(), value),
    ensures
        ram_region_of(blob) == pair_in(
            value,
            cells_before(tokens, tokens.len() - 1, address_cells_word(), 2),
            cells_before(tokens, tokens.len() - 1, size_cells_word(), 1),
        ),
{
    lemma_written(blob, layout, layout.struct_start as int, tokens, end);
    lemma_words();
    lemma_pair(
        value,
        cells_before(tokens, tokens.len() - 1, address_cells_word(), 2),
        cells_before(tokens, tokens.len() - 1, size_cells_word(), 1),
    );
    lemma_memory_node_depth(tokens, tokens.len() - 1);
    assert(tokens.skip(0) =~= tokens);
    assert(!in_memory_node(tokens, 0));
    assert(walk_before(tokens, 0) == walk_start());
    lemma_walk_over(blob, layout, tokens, 0, layout.struct_start as int);
}

/// A tree that closes before any memory node has shown a `reg` has no memory
/// node.
pub proof fn law_tree_without_memory_reg(
    blob: Seq<u8>,
    layout: Layout,
    tokens: Seq<TokenView>,
    end: int,
)
    requires
        layout_of(blob) == Ok::<Layout, FdtError>(layout),
        tokens.len() > 0,
        written(blob, layout, layout.struct_start as int, tokens, end),
        undecided_before(tokens, tokens.len() - 1),
        closes_tree(tokens, tokens.len() - 1),
    ensures
        ram_region_of(blob) == Err::<(u64, u64), FdtError>(FdtError::NoMemoryNode),
{
    lemma_written(blob, layout, layout.struct_start as int, tokens, end);
    lemma_words();
    assert(tokens.skip(0) =~= tokens);
    assert(!in_memory_node(tokens, 0));
    assert(walk_before(tokens, 0) == walk_start());
    lemma_walk_over(blob, layout, tokens, 0, layout.struct_start as int);
}

/// Continues undecided tokens up to the one that decides.
proof fn lemma_decider(
    blob: Seq<u8>,
    layout: Layout,
    cursor: int,
    seen: Seq<TokenView>,
) -> (tokens: Seq<TokenView>)
    requires
        undecided_before(seen, seen.len() as int),
        walk_from(blob, layout, cursor, walk_before(seen, seen.len() as int)) is Ok,
    ensures
        seen.len() < tokens.len(),
        tokens.take(seen.len() as int) == seen,
        reads_as(blob, layout, cursor, tokens.skip(seen.len() as int)),
        undecided_before(tokens, tokens.len() - 1),
        is_memory_reg(tokens, tokens.len() - 1),
    decreases
            (if cursor <= layout.struct_end {
                layout.struct_end + 1 - cursor
            } else {
                0
            }),
{
    lemma_token_progress(blob, layout, cursor);
    let n = seen.len() as int;
    let (token, next) = token_at(blob, layout, cursor)->Ok_0;
    let longer = seen.push(token);
    assert(longer.take(n) =~= seen);
    lemma_prefix(seen, longer, n);
    lemma_verdict(longer, n);
    assert forall|j: int| 0 <= j < n implies #[trigger] undecided_at(longer, j) by {
        assert(undecided_at(seen, j));
        lemma_prefix(seen, longer, j);
    }
    if verdict(walk_before(longer, n), token) is Some {
        assert(longer.skip(n) =~= seq![token]);
        assert(reads_as(blob, layout, next, longer.skip(n).drop_first()));
        longer
    } else {
        lemma_walk_step(longer, n);
        let tokens = lemma_decider(blob, layout, next, longer);
        assert(tokens.take(n) =~= tokens.take(n + 1).take(n));
        assert(tokens.skip(n).drop_first() =~= tokens.skip(n + 1));
        assert(tokens.skip(n)[0] == tokens.take(n + 1)[n]);
        tokens
    }
}

/// What holds before token `k` depends only on the tokens before it.
proof fn lemma_prefix(a: Seq<TokenView>, b: Seq<TokenView>, k: int)
    requires
        0 <= k <= a.len() <= b.len(),
        b.take(a.len() as int) == a,
    ensures
        walk_before(a, k) == walk_before(b, k),
        k < a.len() ==> is_memory_reg(a, k) == is_memory_reg(b, k),
        k < a.len() ==> closes_tree(a, k) == closes_tree(b, k),
    decreases k,
{
    assert forall|i: int| 0 <= i < a.len() implies a[i] == b[i] by {
        assert(b.take(a.len() as int)[i] == b[i]);
    }
    if k > 0 {
        lemma_prefix(a, b, k - 1);
        lemma_walk_step(a, k - 1);
        lemma_walk_step(b, k - 1);
    } else {
        assert(!in_memory_node(a, 0));
        assert(!in_memory_node(b, 0));
    }
}

/// A range that is found is one that the tree declares: the tokens of the
/// structure block lead, with nothing decided on the way, to the `reg` of a
/// memory node, and the range is that `reg`'s first pair.
pub proof fn law_found_range_is_declared(blob: Seq<u8>) -> (r: (
    Seq<TokenView>,
    int,
))
    requires
        ram_region_of(blob) is Ok,
    ensures
        layout_of(blob) is Ok,
        r.0.len() > 0,
        written(
            blob,
            layout_of(blob)->Ok_0,
            layout_of(blob)->Ok_0.struct_start as int,
            r.0,
            r.1,
        ),
        undecided_before(r.0, r.0.len() - 1),
        is_memory_reg(r.0, r.0.len() - 1),
        ram_region_of(blob) == pair_in(
            r.0.last()->Property_1,
            cells_before(r.0, r.0.len() - 1, address_cells_word(), 2),
            cells_before(r.0, r.0.len() - 1, size_cells_word(), 1),
        ),
{
    let layout = layout_of(blob)->Ok_0;
    let none = Seq::<TokenView>::empty();
    assert(!in_memory_node(none, 0));
    lemma_words();
    assert(walk_before(none, 0) == walk_start());
    let tokens = lemma_decider(blob, layout, layout.struct_start as int, none);
    assert(tokens.skip(0) =~= tokens);
    let end = lemma_read(blob, layout, layout.struct_start as int, tokens);
    law_first_memory_reg_decides(blob, layout, tokens, end, tokens.last()->Property_1);
    (tokens, end)
}

/// Only the first pair of a `reg` counts: what follows it is not read.
pub proof fn law_reg_reads_one_pair(
    value: Seq<u8>,
    rest: Seq<u8>,
    addr_cells: u32,
    size_cells: u32,
)
    requires
        reg_of(value, addr_cells, size_cells) is Ok,
    ensures
        reg_of(value + rest, addr_cells, size_cells) == reg_of(value, addr_cells, size_cells),
{
    let addr_bytes = addr_cells * 4;
    let size_bytes = size_cells * 4;
    assert((value + rest).subrange(0, addr_bytes) =~= value.subrange(0, addr_bytes));
    assert((value + rest).subrange(addr_bytes, addr_bytes + size_bytes) =~= value.subrange(
        addr_bytes,
        addr_bytes + size_bytes,
    ));
}

/// A word is not changed by what is appended.
proof fn lemma_word_kept(blob: Seq<u8>, rest: Seq<u8>, off: int)
    requires
        0 <= off,
        off + 4 <= blob.len(),
    ensures
        word(blob + rest, off) == word(blob, off),
{
    assert((blob + rest).subrange(off, off + 4) =~= blob.subrange(off, off + 4));
}

/// Neither is where the first zero byte lies, of those that were there already.
proof fn lemma_nul_kept(blob: Seq<u8>, rest: Seq<u8>, from: int, to: int)
    requires
        0 <= from,
        to <= blob.len(),
    ensures
        first_nul(blob + rest, from, to) == first_nul(blob, from, to),
        first_nul(blob, from, to) is Some ==> first_nul(
            blob + rest,
            from,
            (blob + rest).len() as int,
        ) == first_nul(blob, from, to),
    decreases to - from,
{
    if from < to && blob[from] != 0 {
        lemma_nul_kept(blob, rest, from + 1, to);
    }
}

/// Neither is a token, where its name, if it is a property, was found.
proof fn lemma_token_kept(blob: Seq<u8>, rest: Seq<u8>, layout: Layout, cursor: int)
    requires
        0 <= cursor,
        layout.struct_end <= blob.len(),
        token_at(blob, layout, cursor) != Err::<(TokenView, int), FdtError>(
            FdtError::StringsBlockOutOfBounds,
        ),
    ensures
        token_at(blob + rest, layout, cursor) == token_at(blob, layout, cursor),
{
    let body = cursor + 4;
    let longer = blob + rest;
    if body <= layout.struct_end {
        lemma_word_kept(blob, rest, cursor);
        lemma_nul_kept(blob, rest, body, layout.struct_end as int);
        lemma_first_nul(blob, body, layout.struct_end as int);
        if let Some(end) = first_nul(blob, body, layout.struct_end as int) {
            assert(longer.subrange(body, end) =~= blob.subrange(body, end));
        }
        if word(blob, cursor) == FDT_PROP && body + 8 <= layout.struct_end {
            lemma_word_kept(blob, rest, body);
            lemma_word_kept(blob, rest, body + 4);
            let value_end = body + 8 + word(blob, body);
            if value_end <= layout.struct_end {
                let name = layout.strings + word(blob, body + 4);
                assert(longer.subrange(body + 8, value_end) =~= blob.subrange(
                    body + 8,
                    value_end,
                ));
                lemma_nul_kept(blob, rest, name, blob.len() as int);
                lemma_first_nul(blob, name, blob.len() as int);
                if let Some(end) = first_nul(blob, name, blob.len() as int) {
                    assert(longer.subrange(name, end) =~= blob.subrange(name, end));
                }
            }
        }
    }
}

/// Neither is what the walk finds.
proof fn lemma_walk_kept(blob: Seq<u8>, rest: Seq<u8>, layout: Layout, cursor: int, walk: Walk)
    requires
        0 <= cursor,
        layout.struct_end <= blob.len(),
        walk_from(blob, layout, cursor, walk) != Err::<(u64, u64), FdtError>(
            FdtError::StringsBlockOutOfBounds,
        ),
    ensures
        walk_from(blob + rest, layout, cursor, walk) == walk_from(blob, layout, cursor, walk),
    decreases
            (if cursor <= layout.struct_end {
                layout.struct_end + 1 - cursor
            } else {
                0
            }),
{
    lemma_token_progress(blob, layout, cursor);
    lemma_token_kept(blob, rest, layout, cursor);
    if let Ok((token, next)) = token_at(blob, layout, cursor) {
        if verdict(walk, token) is None {
            lemma_walk_kept(blob, rest, layout, next, advance(walk, token));
        }
    }
}

/// Bytes behind a blob change nothing: whatever is appended, the answer stays
/// the same, be it a range or a reason to reject the blob. The one exception is
/// a blob that is rejected for being cut short, before the end of its header or
/// of one of its blocks.
pub proof fn law_trailing_bytes_change_nothing(blob: Seq<u8>, rest: Seq<u8>)
    requires
        ram_region_of(blob) matches Err(error) ==> error != FdtError::TooShortForHeader && error
            != FdtError::StructBlockOutOfBounds && error != FdtError::StringsBlockOutOfBounds,
    ensures
        ram_region_of(blob + rest) == ram_region_of(blob),
{
    lemma_word_kept(blob, rest, 0);
    lemma_word_kept(blob, rest, 8);
    lemma_word_kept(blob, rest, 12);
    lemma_word_kept(blob, rest, 20);
    lemma_word_kept(blob, rest, 36);
    if let Ok(layout) = layout_of(blob) {
        lemma_value_bound(blob.subrange(8, 12));
        lemma_value_bound(blob.subrange(12, 16));
        lemma_value_bound(blob.subrange(36, 40));
        lemma_pow256();
        assert(layout_of(blob + rest) == Ok::<Layout, FdtError>(layout));
        lemma_walk_kept(blob, rest, layout, layout.struct_start as int, walk_start());
    }
}

/// The walk over undecided tokens reaches where they end.
proof fn lemma_walk_reaches(
    blob: Seq<u8>,
    layout: Layout,
    tokens: Seq<TokenView>,
    k: int,
    cursor: int,
    end: int,
)
    requires
        0 <= k <= tokens.len(),
        0 <= cursor,
        layout.struct_end <= blob.len(),
        written(blob, layout, cursor, tokens.skip(k), end),
        undecided_before(tokens, tokens.len() as int),
    ensures
        0 <= end,
        walk_from(blob, layout, cursor, walk_before(tokens, k)) == walk_from(
            blob,
            layout,
            end,
            walk_before(tokens, tokens.len() as int),
        ),
    decreases tokens.len() - k,
{
    if k < tokens.len() {
        assert(tokens.skip(k)[0] == tokens[k]);
        assert(tokens.skip(k).drop_first() =~= tokens.skip(k + 1));
        let next = choose|next: int| #[trigger]
            spells(blob, layout, cursor, tokens[k], next) && written(
                blob,
                layout,
                next,
                tokens.skip(k + 1),
                end,
            );
        lemma_token_spelled(blob, layout, cursor, tokens[k], next);
        lemma_token_progress(blob, layout, cursor);
        lemma_verdict(tokens, k);
        assert(undecided_at(tokens, k));
        lemma_walk_step(tokens, k);
        lemma_walk_reaches(blob, layout, tokens, k + 1, next, end);
    } else {
        assert(tokens.skip(k).len() == 0);
    }
}

/// No zero byte follows: there is no name at `o`.
pub open spec fn nameless(blob: Seq<u8>, o: int) -> bool {
    forall|i: int| o <= i < blob.len() ==> #[trigger] blob[i] != 0
}

/// A property whose value is all there is written at `cursor`, but its name runs
/// past the end of the blob.
pub open spec fn names_nothing(blob: Seq<u8>, layout: Layout, cursor: int) -> bool {
    &&& cursor + 12 <= layout.struct_end
    &&& be32_at(blob, cursor) == 3
    &&& cursor + 12 + be32_at(blob, cursor + 4) <= layout.struct_end
    &&& nameless(blob, layout.strings + be32_at(blob, cursor + 8))
}

/// A token is read exactly if it is written there; otherwise a property's name
/// is missing, or else whatever is there is cut short or no token.
pub proof fn law_tokens_are_read_as_written(
    fdt: &[u8],
    layout: &Layout,
    cursor: u64,
    result: Result<(Token, u64), FdtError>,
)
    requires
        layout.struct_end <= fdt@.len(),
        call_ensures(read_token, (fdt, layout, cursor), result),
    ensures
        result matches Ok((token, next)) ==> spells(
            fdt@,
            *layout,
            cursor as int,
            token@,
            next as int,
        ),
        result is Err ==> forall|token: TokenView, next: int|
            !spells(fdt@, *layout, cursor as int, token, next),
        result matches Err(error) ==> error == (if names_nothing(fdt@, *layout, cursor as int) {
            FdtError::StringsBlockOutOfBounds
        } else {
            FdtError::Truncated
        }),
{
    lemma_break(fdt@, *layout, cursor as int);
    if let Ok((token, next)) = result {
        lemma_token_spelled(fdt@, *layout, cursor as int, token@, next as int);
    }
    if result is Err {
        assert forall|token: TokenView, next: int| !spells(
            fdt@,
            *layout,
            cursor as int,
            token,
            next,
        ) by {
            lemma_token_spelled(fdt@, *layout, cursor as int, token, next);
        }
    }
}

proof fn lemma_break(blob: Seq<u8>, layout: Layout, cursor: int)
    requires
        0 <= cursor,
        layout.struct_end <= blob.len(),
    ensures
        token_at(blob, layout, cursor) matches Err(error) ==> error == (if names_nothing(
            blob,
            layout,
            cursor,
        ) {
            FdtError::StringsBlockOutOfBounds
        } else {
            FdtError::Truncated
        }),
{
    let body = cursor + 4;
    if body <= layout.struct_end {
        lemma_be_spelled(blob, cursor);
        if body + 8 <= layout.struct_end {
            lemma_be_spelled(blob, body);
            lemma_be_spelled(blob, body + 4);
            lemma_first_nul(blob, layout.strings + word(blob, body + 4), blob.len() as int);
        }
    }
}

/// A tree that breaks off before anything is decided is rejected: where its
/// tokens end, nothing that is a token is written.
pub proof fn law_broken_trees_are_rejected(
    blob: Seq<u8>,
    layout: Layout,
    tokens: Seq<TokenView>,
    end: int,
)
    requires
        layout_of(blob) == Ok::<Layout, FdtError>(layout),
        written(blob, layout, layout.struct_start as int, tokens, end),
        undecided_before(tokens, tokens.len() as int),
        forall|token: TokenView, next: int| !spells(blob, layout, end, token, next),
    ensures
        ram_region_of(blob) == Err::<(u64, u64), FdtError>(
            if names_nothing(blob, layout, end) {
                FdtError::StringsBlockOutOfBounds
            } else {
                FdtError::Truncated
            },
        ),
{
    let start = layout.struct_start as int;
    lemma_words();
    assert(tokens.skip(0) =~= tokens);
    assert(!in_memory_node(tokens, 0));
    assert(walk_before(tokens, 0) == walk_start());
    lemma_walk_reaches(blob, layout, tokens, 0, start, end);
    lemma_break(blob, layout, end);
    if let Ok((token, next)) = token_at(blob, layout, end) {
        lemma_token_spelled(blob, layout, end, token, next);
    }
}

/// Where the parts of a blob lie is what its header says, in big-endian words:
/// the structure block starts where the word at 8 says and is as long as the
/// word at 36 says; the strings start where the word at 12 says. A blob is
/// accepted exactly if the header is all there, begins with the right word, has
/// version 16 or a later one at 20, and names places inside the blob.
pub proof fn law_layout_is_what_the_header_says(fdt: &[u8], result: Result<Layout, FdtError>)
    requires
        call_ensures(parse_layout, (fdt,), result),
    ensures
        ({
            let s = fdt@;
            let known = s.len() >= 40 && be32_at(s, 0) == 0xd00d_feed;
            let inside = be32_at(s, 8) + be32_at(s, 36) <= s.len() && be32_at(s, 12) <= s.len();
            &&& result is Ok <==> known && be32_at(s, 20) >= 16 && inside
            &&& result matches Ok(layout) ==> {
                &&& layout.struct_start == be32_at(s, 8)
                &&& layout.struct_end == be32_at(s, 8) + be32_at(s, 36)
                &&& layout.strings == be32_at(s, 12)
            }
            &&& result matches Err(error) ==> match error {
                FdtError::TooShortForHeader => s.len() < 40,
                FdtError::BadMagic => s.len() >= 40 && be32_at(s, 0) != 0xd00d_feed,
                FdtError::UnsupportedVersion(version) => known && version == be32_at(s, 20)
                    && version < 16,
                FdtError::StructBlockOutOfBounds => known && be32_at(s, 20) >= 16 && !inside,
                _ => false,
            }
        }),
{
    let s = fdt@;
    if s.len() >= 40 {
        lemma_be_spelled(s, 0);
        lemma_be_spelled(s, 8);
        lemma_be_spelled(s, 12);
        lemma_be_spelled(s, 20);
        lemma_be_spelled(s, 36);
    }
}

/// A blob is rejected for its header where the header is, and otherwise the walk
/// over its tokens decides.
pub proof fn law_header_comes_first(
    fdt: &[u8],
    layout: Result<Layout, FdtError>,
    result: Result<(u64, u64), FdtError>,
)
    requires
        call_ensures(parse_layout, (fdt,), layout),
        call_ensures(parse_ram_region, (fdt,), result),
    ensures
        layout matches Err(error) ==> result == Err::<(u64, u64), FdtError>(error),
        layout is Ok ==> layout == layout_of(fdt@) && result == ram_region_of(fdt@),
{
}

/// The length of a blob is the big-endian word at 4, where the word before it is
/// the right one.
pub proof fn law_total_size_is_what_the_header_says(
    header: &[u8],
    result: Result<usize, FdtError>,
)
    requires
        call_ensures(total_size, (header,), result),
    ensures
        ({
            let s = header@;
            let known = s.len() >= 4 && be32_at(s, 0) == 0xd00d_feed;
            &&& known && s.len() >= 8 ==> result is Ok && result->Ok_0 == be32_at(s, 4)
            &&& known && s.len() < 8 ==> result == Err::<usize, FdtError>(
                FdtError::TooShortForHeader,
            )
            &&& !known ==> result == Err::<usize, FdtError>(FdtError::BadMagic)
        }),
{
    let s = header@;
    if s.len() >= 4 {
        lemma_be_spelled(s, 0);
    }
    if s.len() >= 8 {
        lemma_be_spelled(s, 4);
    }
}

/// What memory there is, is found in just the blob: as many bytes from the start
/// of `memory` as the blob itself says that it has. What comes behind does not
/// matter; and nothing is found where that is more than there are.
pub proof fn law_ram_is_found_in_the_blob(
    memory: &[u8],
    region: Option<(u64, u64)>,
    blob: &[u8],
    found: Result<(u64, u64), FdtError>,
)
    requires
        call_ensures(ram_region, (memory,), region),
        call_ensures(parse_ram_region, (blob,), found),
    ensures
        ({
            let s = memory@;
            let known = s.len() >= 8 && be32_at(s, 0) == 0xd00d_feed && be32_at(s, 4) <= s.len();
            &&& !known ==> region is None
            &&& known && blob@ == s.take(be32_at(s, 4)) ==> match found {
                Ok(pair) => region == Some(pair),
                Err(_) => region is None,
            }
        }),
{
    let s = memory@;
    if s.len() >= 4 {
        lemma_be_spelled(s, 0);
    }
    if s.len() >= 8 {
        lemma_be_spelled(s, 4);
        if 0 <= be32_at(s, 4) <= s.len() {
            assert(s.take(be32_at(s, 4)) =~= s.subrange(0, be32_at(s, 4)));
        }
    }
}

} // verus!

//! Facts about sequences that are joined from blocks.

use vstd::prelude::*;
use vstd::seq_lib::lemma_flatten_concat;

verus! {

/// A sequence of blocks, joined, is the blocks before one of them, that
/// block and the blocks after it, joined in turn.
pub(crate) proof fn lemma_flatten_around<A>(blocks: Seq<Seq<A>>, i: int)
    requires
        0 <= i < blocks.len(),
    ensures
        blocks.flatten() == blocks.take(i).flatten() + blocks[i] + blocks.skip(i + 1).flatten(),
        blocks.take(i + 1).flatten() == blocks.take(i).flatten() + blocks[i],
{
    assert(blocks.take(i + 1) =~= blocks.take(i).push(blocks[i]));
    blocks.take(i).lemma_flatten_push(blocks[i]);
    assert(blocks =~= blocks.take(i + 1) + blocks.skip(i + 1));
    lemma_flatten_concat(blocks.take(i + 1), blocks.skip(i + 1));
}

/// What stands in two sequences joined stands in one of them.
pub(crate) proof fn lemma_joined_contains<A>(first: Seq<A>, second: Seq<A>, item: A)
    ensures
        (first + second).contains(item) <==> first.contains(item) || second.contains(item),
{
    let joined = first + second;
    if first.contains(item) {
        let n = choose|n: int| 0 <= n < first.len() && first[n] == item;
        assert(joined[n] == item);
    }
    if second.contains(item) {
        let n = choose|n: int| 0 <= n < second.len() && second[n] == item;
        assert(joined[first.len() + n] == item);
    }
}

/// What stands in a block stands in the blocks joined.
pub(crate) proof fn lemma_flatten_contains<A>(blocks: Seq<Seq<A>>, i: int, item: A)
    requires
        0 <= i < blocks.len(),
        blocks[i].contains(item),
    ensures
        blocks.flatten().contains(item),
{
    lemma_flatten_around(blocks, i);
    let m = choose|m: int| 0 <= m < blocks[i].len() && blocks[i][m] == item;
    let before = blocks.take(i).flatten();
    assert(blocks.flatten()[before.len() + m] == item);
}

/// What stands in the blocks joined stands in one of the blocks.
pub(crate) proof fn lemma_flatten_origin<A>(blocks: Seq<Seq<A>>, item: A)
    requires
        blocks.flatten().contains(item),
    ensures
        exists|i: int| 0 <= i < blocks.len() && (#[trigger] blocks[i]).contains(item),
    decreases blocks.len(),
{
    if blocks.len() > 0 {
        lemma_joined_contains(blocks.first(), blocks.drop_first().flatten(), item);
        if !blocks.first().contains(item) {
            lemma_flatten_origin(blocks.drop_first(), item);
        }
    }
}

} // verus!

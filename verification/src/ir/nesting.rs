//! Functions whose blocks are nested soundly, whatever their sizes: what
//! such a function names exists and is entered where it is named. A pass
//! that builds a function step by step can keep it so, and need not wait for
//! the function to be finished to know that it can be emitted.

use crate::ir::{BlockRef, FuncView, LabelRef, LocalRef, OpView, lemma_locals_size_nonnegative};
use crate::ir::emit::{emittable, headroom, nestable, op_ok, ops_ok, simple_op_ok, stack_girth};
use vstd::prelude::*;

verus! {

/// An operation that is sound inside the blocks of `stack`: it names only
/// what exists and what is entered there, and the blocks nested in it were
/// all created after the block that holds them and before block `hi`.
/// Nothing is asked about sizes.
pub open spec fn op_sound(f: FuncView, stack: Seq<BlockRef>, op: OpView, hi: int) -> bool
    decreases headroom(f, stack), 0int,
{
    match op {
        OpView::Block(c) => {
            &&& nestable(f, stack, c)
            &&& c.0 < hi
            &&& ops_sound(f, stack.push(c), 0, hi)
        },
        _ => simple_op_ok(f, stack, op),
    }
}

/// The operations of the block on top of `stack`, from the one at `from`
/// on, are all sound.
pub open spec fn ops_sound(f: FuncView, stack: Seq<BlockRef>, from: int, hi: int) -> bool
    decreases headroom(f, stack), f.block(stack.last()).ops.len() - from + 1,
{
    let ops = f.block(stack.last()).ops;
    if 0 <= from < ops.len() {
        op_sound(f, stack, ops[from], hi) && ops_sound(f, stack, from + 1, hi)
    } else {
        true
    }
}

/// The function is well nested: everything that is reached from its entry
/// is sound. Such a function can be emitted as soon as its frames fit.
pub open spec fn well_nested(f: FuncView) -> bool {
    &&& f.has_block(f.entry)
    &&& ops_sound(f, seq![f.entry], 0, f.blocks.len() as int)
}

/// The total girth of the first `n` blocks of the arena.
pub open spec fn girth_upto(f: FuncView, n: int) -> int
    decreases n,
{
    if n <= 0 {
        0
    } else {
        girth_upto(f, n - 1) + f.blocks[n - 1].girth()
    }
}

/// The total girth of all blocks of the function.
pub open spec fn total_girth(f: FuncView) -> int {
    girth_upto(f, f.blocks.len() as int)
}

/// Every block of the stack was created after the one under it.
pub open spec fn increasing(stack: Seq<BlockRef>) -> bool {
    forall|i: int, j: int| 0 <= i < j < stack.len() ==> (#[trigger] stack[i]).0 < (#[trigger] stack[j]).0
}

/// `later` is `earlier` after some growth: no block, local or label is
/// gone.
pub open spec fn extends(later: FuncView, earlier: FuncView) -> bool {
    &&& earlier.blocks.len() <= later.blocks.len()
    &&& forall|b: int|
        0 <= b < earlier.blocks.len() ==> {
            &&& (#[trigger] earlier.blocks[b]).locals.len() <= later.blocks[b].locals.len()
            &&& earlier.blocks[b].labels.len() <= later.blocks[b].labels.len()
        }
}

/// Whatever exists in `earlier` exists in `later`.
pub open spec fn keeps(later: FuncView, earlier: FuncView) -> bool {
    &&& earlier.blocks.len() <= later.blocks.len()
    &&& forall|l: LabelRef| #[trigger] earlier.has_label(l) ==> later.has_label(l)
    &&& forall|l: LocalRef| #[trigger] earlier.has_local(l) ==> later.has_local(l)
}

/// A function that has grown has kept what it had.
pub proof fn lemma_extends_keeps(later: FuncView, earlier: FuncView)
    requires
        extends(later, earlier),
    ensures
        keeps(later, earlier),
{
    assert forall|l: LocalRef| #[trigger] earlier.has_local(l) implies later.has_local(l) by {}
    assert forall|l: LabelRef| #[trigger] earlier.has_label(l) implies later.has_label(l) by {}
}

pub proof fn lemma_girth_upto_monotone(f: FuncView, m: int, n: int)
    requires
        0 <= m <= n,
    ensures
        0 <= girth_upto(f, m) <= girth_upto(f, n),
    decreases n - m,
{
    lemma_girth_upto_nonnegative(f, m);
    if m < n {
        lemma_girth_upto_monotone(f, m + 1, n);
        lemma_locals_size_nonnegative(f.blocks[m].locals);
    }
}

pub proof fn lemma_girth_upto_nonnegative(f: FuncView, n: int)
    ensures
        0 <= girth_upto(f, n),
    decreases n,
{
    if n > 0 {
        lemma_girth_upto_nonnegative(f, n - 1);
        lemma_locals_size_nonnegative(f.blocks[n - 1].locals);
    }
}

/// Blocks that are entered one inside the other take no more room together
/// than all the blocks of the function.
pub proof fn lemma_stack_within_total(f: FuncView, stack: Seq<BlockRef>)
    requires
        increasing(stack),
        forall|i: int| 0 <= i < stack.len() ==> f.has_block(#[trigger] stack[i]),
    ensures
        stack.len() > 0 ==> stack_girth(f, stack) <= girth_upto(f, stack.last().0 + 1),
        stack_girth(f, stack) <= total_girth(f),
    decreases stack.len(),
{
    if stack.len() == 0 {
        lemma_girth_upto_nonnegative(f, f.blocks.len() as int);
    } else {
        let front = stack.drop_last();
        assert forall|i: int, j: int| 0 <= i < j < front.len() implies (#[trigger] front[i]).0 < (
        #[trigger] front[j]).0 by {}
        assert forall|i: int| 0 <= i < front.len() implies f.has_block(#[trigger] front[i]) by {}
        lemma_stack_within_total(f, front);
        let top = stack.last().0 as int;
        if front.len() > 0 {
            lemma_girth_upto_monotone(f, front.last().0 + 1, top);
        } else {
            lemma_girth_upto_nonnegative(f, top);
        }
        lemma_girth_upto_monotone(f, top + 1, f.blocks.len() as int);
    }
}

/// What is sound up to a block is sound up to any later block.
pub proof fn lemma_sound_up_to_later(f: FuncView, stack: Seq<BlockRef>, from: int, hi: int, later: int)
    requires
        ops_sound(f, stack, from, hi),
        hi <= later,
    ensures
        ops_sound(f, stack, from, later),
    decreases headroom(f, stack), f.block(stack.last()).ops.len() - from + 1,
{
    let ops = f.block(stack.last()).ops;
    if 0 <= from < ops.len() {
        assert(op_sound(f, stack, ops[from], hi));
        match ops[from] {
            OpView::Block(c) => {
                lemma_sound_up_to_later(f, stack.push(c), 0, hi, later);
            },
            _ => {},
        }
        lemma_sound_up_to_later(f, stack, from + 1, hi, later);
        assert(op_sound(f, stack, ops[from], later));
    }
}

/// What is sound stays sound while the function grows, as long as the
/// operations of the blocks from the one on top of the stack up to `hi` stay
/// what they are.
pub proof fn lemma_sound_after_growth(
    f: FuncView,
    grown: FuncView,
    stack: Seq<BlockRef>,
    from: int,
    hi: int,
)
    requires
        ops_sound(f, stack, from, hi),
        extends(grown, f),
        stack.len() > 0,
        stack.last().0 < hi <= f.blocks.len(),
        forall|i: int| 0 <= i < stack.len() ==> f.has_block(#[trigger] stack[i]),
        forall|b: int| stack.last().0 <= b < hi ==> (#[trigger] grown.blocks[b]).ops == f.blocks[b].ops,
    ensures
        ops_sound(grown, stack, from, hi),
    decreases hi - stack.last().0, f.block(stack.last()).ops.len() - from + 1,
{
    let top = stack.last();
    let ops = f.block(top).ops;
    if 0 <= from < ops.len() {
        assert(op_sound(f, stack, ops[from], hi));
        match ops[from] {
            OpView::Block(c) => {
                let deeper = stack.push(c);
                assert forall|i: int| 0 <= i < deeper.len() implies f.has_block(
                    #[trigger] deeper[i],
                ) by {}
                lemma_sound_after_growth(f, grown, deeper, 0, hi);
            },
            op => {
                lemma_simple_op_after_growth(f, grown, stack, op);
            },
        }
        lemma_sound_after_growth(f, grown, stack, from + 1, hi);
        assert(op_sound(grown, stack, ops[from], hi));
    }
}

/// An operation other than a nested block that can be written stays so
/// while the function grows.
pub proof fn lemma_simple_op_after_growth(
    f: FuncView,
    grown: FuncView,
    stack: Seq<BlockRef>,
    op: OpView,
)
    requires
        simple_op_ok(f, stack, op),
        extends(grown, f),
    ensures
        simple_op_ok(grown, stack, op),
{
    assert forall|l: LocalRef| f.has_local(l) implies grown.has_local(l) by {}
    assert forall|l: LabelRef| f.has_label(l) implies grown.has_label(l) by {}
}

/// What is sound can be written, where all the blocks of the function fit
/// the machine's word together.
pub proof fn lemma_sound_and_fitting(f: FuncView, stack: Seq<BlockRef>, from: int, hi: int)
    requires
        ops_sound(f, stack, from, hi),
        increasing(stack),
        forall|i: int| 0 <= i < stack.len() ==> f.has_block(#[trigger] stack[i]),
        total_girth(f) <= i64::MAX,
    ensures
        ops_ok(f, stack, from),
    decreases headroom(f, stack), f.block(stack.last()).ops.len() - from + 1,
{
    let ops = f.block(stack.last()).ops;
    if 0 <= from < ops.len() {
        assert(op_sound(f, stack, ops[from], hi));
        match ops[from] {
            OpView::Block(c) => {
                let deeper = stack.push(c);
                assert forall|i: int| 0 <= i < deeper.len() implies f.has_block(
                    #[trigger] deeper[i],
                ) by {}
                assert forall|i: int, j: int| 0 <= i < j < deeper.len() implies (
                #[trigger] deeper[i]).0 < (#[trigger] deeper[j]).0 by {}
                lemma_stack_within_total(f, deeper);
                lemma_sound_and_fitting(f, deeper, 0, hi);
            },
            _ => {},
        }
        lemma_sound_and_fitting(f, stack, from + 1, hi);
        assert(op_ok(f, stack, ops[from]));
    }
}

/// A well-nested function whose blocks fit the machine's word together can
/// be emitted.
pub proof fn lemma_well_nested_is_emittable(f: FuncView)
    requires
        well_nested(f),
        total_girth(f) <= i64::MAX,
    ensures
        emittable(f),
{
    let stack = seq![f.entry];
    lemma_stack_within_total(f, stack);
    lemma_sound_and_fitting(f, stack, 0, f.blocks.len() as int);
}

} // verus!

//! Why what the pass builds can be emitted: every step keeps the function
//! well nested.
//!
//! While a function is lowered, the blocks of the open scopes form a chain,
//! each nested in the one before it. Every block of the chain holds only
//! operations that are sound inside the chain up to it; a nested block is
//! either the next block of the chain, which is still being filled, or a
//! block that is closed and sound as a whole.

use crate::ir::{BlockRef, FuncView, LabelRef, LocalRef, OpView, dual_memory, legalize};
use crate::ir::emit::{nestable, simple_op_ok};
use crate::ir::nesting::{
    extends, increasing, lemma_simple_op_after_growth, lemma_sound_after_growth,
    lemma_sound_up_to_later, op_sound, ops_sound, well_nested,
};
use crate::middle::{
    ItemView, Loop, ScopeView, State, find_binding, lemma_scope_index, lookup, scope_index,
};
use vstd::prelude::*;

verus! {

/// The blocks of the open scopes, outermost first.
pub open spec fn chain(items: Seq<ItemView>) -> Seq<BlockRef>
    decreases items.len(),
{
    if items.len() == 0 {
        Seq::empty()
    } else {
        match items.last() {
            ItemView::Scope(s) => chain(items.drop_last()).push(s.block),
            ItemView::Loop(_) => chain(items.drop_last()),
        }
    }
}

/// The block before which the closed blocks of level `j` of a chain were
/// created: the next block of the chain, or the end of the arena.
pub open spec fn bound(f: FuncView, ch: Seq<BlockRef>, j: int) -> int {
    if j + 1 < ch.len() {
        ch[j + 1].0 as int
    } else {
        f.blocks.len() as int
    }
}

/// An operation of the block at level `j` of a chain is sound there.
pub open spec fn entry_sound(f: FuncView, ch: Seq<BlockRef>, j: int, op: OpView) -> bool {
    let stack = ch.take(j + 1);
    match op {
        OpView::Block(c) => {
            &&& nestable(f, stack, c)
            &&& {
                ||| j + 1 < ch.len() && c == ch[j + 1]
                ||| c.0 < bound(f, ch, j) && ops_sound(f, stack.push(c), 0, bound(f, ch, j))
            }
        },
        _ => simple_op_ok(f, stack, op),
    }
}

/// Every operation of the block at level `j` of a chain is sound there.
pub open spec fn level_sound(f: FuncView, ch: Seq<BlockRef>, j: int) -> bool {
    forall|k: int|
        0 <= k < f.block(ch[j]).ops.len() ==> entry_sound(
            f,
            ch,
            j,
            #[trigger] f.block(ch[j]).ops[k],
        )
}

/// Every binding of every open scope stands for a local of the scope's own
/// block.
pub open spec fn bindings_sound(f: FuncView, items: Seq<ItemView>) -> bool {
    forall|i: int, k: int|
        0 <= i < items.len() && items[i] is Scope && 0 <= k < items[i]->Scope_0.bindings.len()
            ==> {
            let l = (#[trigger] items[i]->Scope_0.bindings[k]).1;
            l.0 == items[i]->Scope_0.block && f.has_local(l)
        }
}

/// The labels of every open loop exist.
pub open spec fn loops_sound(f: FuncView, items: Seq<ItemView>) -> bool {
    forall|i: int|
        0 <= i < items.len() ==> ((#[trigger] items[i]) matches ItemView::Loop(l) ==> f.has_label(
            l.continue_label,
        ) && f.has_label(l.break_label))
}

/// The invariant of the pass: the chain of open scopes starts at the entry,
/// each of its blocks was created after the one before it, and every level
/// of it is sound.
pub open spec fn inv(s: State) -> bool {
    let ch = chain(s.items);
    &&& s.wf()
    &&& ch.len() > 0
    &&& ch[0] == s.f.entry
    &&& ch.last() == s.block()
    &&& increasing(ch)
    &&& forall|j: int| 0 <= j < ch.len() ==> s.f.has_block(#[trigger] ch[j])
    &&& forall|j: int| 0 <= j < ch.len() ==> #[trigger] level_sound(s.f, ch, j)
    &&& bindings_sound(s.f, s.items)
    &&& loops_sound(s.f, s.items)
}

/// The invariant does not depend on the label counter.
pub proof fn lemma_inv_any_counter(s: State, next_label: nat)
    requires
        inv(s),
        next_label <= u64::MAX,
    ensures
        inv(State { next_label, ..s }),
{
}

/// Where the bottom item is a scope, the chain ends with the block of the
/// innermost scope and starts with the block of the bottom one.
pub proof fn lemma_chain_ends(items: Seq<ItemView>)
    requires
        items.len() > 0,
        items[0] is Scope,
    ensures
        chain(items).len() > 0,
        chain(items).last() == items[scope_index(items)]->Scope_0.block,
        chain(items)[0] == items[0]->Scope_0.block,
    decreases items.len(),
{
    lemma_scope_index(items);
    if items.len() > 1 {
        lemma_chain_ends(items.drop_last());
        lemma_scope_index(items.drop_last());
    } else {
        assert(chain(items.drop_last()) =~= Seq::empty());
    }
}

/// A scope that keeps its block keeps the chain.
pub proof fn lemma_chain_after_update(items: Seq<ItemView>, i: int, scope: ScopeView)
    requires
        0 <= i < items.len(),
        items[i] matches ItemView::Scope(s) && s.block == scope.block,
    ensures
        chain(items.update(i, ItemView::Scope(scope))) == chain(items),
    decreases items.len(),
{
    let updated = items.update(i, ItemView::Scope(scope));
    if i == items.len() - 1 {
        assert(updated.drop_last() =~= items.drop_last());
    } else {
        assert(updated.drop_last() =~= items.drop_last().update(i, ItemView::Scope(scope)));
        lemma_chain_after_update(items.drop_last(), i, scope);
    }
}

/// A binding that is found is one of the bindings.
pub proof fn lemma_found_binding(bindings: Seq<(Seq<char>, LocalRef)>, name: Seq<char>)
    ensures
        find_binding(bindings, name) matches Some(l) ==> exists|k: int|
            0 <= k < bindings.len() && (#[trigger] bindings[k]).1 == l,
    decreases bindings.len(),
{
    if bindings.len() > 0 {
        if !(bindings.last().0 == name) {
            lemma_found_binding(bindings.drop_last(), name);
        }
    }
}

/// A name that is found stands for a local that exists, in a block of the
/// chain.
pub proof fn lemma_lookup_sound(f: FuncView, items: Seq<ItemView>, name: Seq<char>)
    requires
        bindings_sound(f, items),
    ensures
        lookup(items, name) matches Some(l) ==> chain(items).contains(l.0) && f.has_local(l),
    decreases items.len(),
{
    if items.len() > 0 {
        let front = items.drop_last();
        assert(bindings_sound(f, front)) by {
            assert forall|i: int, k: int|
                0 <= i < front.len() && front[i] is Scope && 0 <= k
                    < front[i]->Scope_0.bindings.len() implies {
                let l = (#[trigger] front[i]->Scope_0.bindings[k]).1;
                l.0 == front[i]->Scope_0.block && f.has_local(l)
            } by {
                assert(front[i] == items[i]);
                let l = items[i]->Scope_0.bindings[k].1;
            }
        }
        lemma_lookup_sound(f, front, name);
        match items.last() {
            ItemView::Scope(s) => {
                lemma_found_binding(s.bindings, name);
                match find_binding(s.bindings, name) {
                    Some(l) => {
                        let k = choose|k: int|
                            0 <= k < s.bindings.len() && (#[trigger] s.bindings[k]).1 == l;
                        let i = items.len() - 1;
                        assert(items[i]->Scope_0.bindings[k].1 == l);
                        assert(chain(items).last() == s.block);
                    },
                    None => {
                        if lookup(front, name) is Some {
                            let l = lookup(front, name)->0;
                            let w = choose|w: int|
                                0 <= w < chain(front).len() && chain(front)[w] == l.0;
                            assert(chain(items)[w] == l.0);
                        }
                    },
                }
            },
            ItemView::Loop(_) => {},
        }
    }
}

/// The levels of a chain stay sound while the function grows in place:
/// no block is added, only the innermost block of the chain gets new
/// operations, and these are sound there and nest nothing.
pub proof fn lemma_levels_after_growth(
    f: FuncView,
    g: FuncView,
    ch: Seq<BlockRef>,
    extra: Seq<OpView>,
)
    requires
        ch.len() > 0,
        increasing(ch),
        forall|j: int| 0 <= j < ch.len() ==> f.has_block(#[trigger] ch[j]),
        forall|j: int| 0 <= j < ch.len() ==> #[trigger] level_sound(f, ch, j),
        extends(g, f),
        g.blocks.len() == f.blocks.len(),
        forall|b: int|
            0 <= b < f.blocks.len() && b != ch.last().0 ==> (#[trigger] g.blocks[b]).ops
                == f.blocks[b].ops,
        g.block(ch.last()).ops == f.block(ch.last()).ops + extra,
        forall|k: int|
            0 <= k < extra.len() ==> !((#[trigger] extra[k]) is Block) && simple_op_ok(
                g,
                ch,
                extra[k],
            ),
    ensures
        forall|j: int| 0 <= j < ch.len() ==> #[trigger] level_sound(g, ch, j),
{
    let last = ch.len() - 1;
    assert forall|j: int| 0 <= j < ch.len() implies #[trigger] level_sound(g, ch, j) by {
        let stack = ch.take(j + 1);
        assert(level_sound(f, ch, j));
        assert forall|i: int| 0 <= i < stack.len() implies f.has_block(#[trigger] stack[i]) by {}
        assert forall|k: int| 0 <= k < g.block(ch[j]).ops.len() implies entry_sound(
            g,
            ch,
            j,
            #[trigger] g.block(ch[j]).ops[k],
        ) by {
            let op = g.block(ch[j]).ops[k];
            if k < f.block(ch[j]).ops.len() {
                match op {
                    OpView::Block(c) => {
                        if !(j + 1 < ch.len() && c == ch[j + 1]) {
                            let hi = bound(f, ch, j);
                            let deeper = stack.push(c);
                            assert forall|i: int| 0 <= i < deeper.len() implies f.has_block(
                                #[trigger] deeper[i],
                            ) by {}
                            lemma_sound_after_growth(f, g, deeper, 0, hi);
                        }
                    },
                    _ => {
                        lemma_simple_op_after_growth(f, g, stack, op);
                    },
                }
            } else {
                assert(stack =~= ch);
            }
        }
    }
}

/// Bindings and loops stay sound while the function grows.
pub proof fn lemma_items_after_growth(f: FuncView, g: FuncView, items: Seq<ItemView>)
    requires
        bindings_sound(f, items),
        loops_sound(f, items),
        extends(g, f),
    ensures
        bindings_sound(g, items),
        loops_sound(g, items),
{
    assert forall|l: LocalRef| f.has_local(l) implies g.has_local(l) by {}
    assert forall|l: LabelRef| f.has_label(l) implies g.has_label(l) by {}
    assert forall|i: int, k: int|
        0 <= i < items.len() && items[i] is Scope && 0 <= k
            < items[i]->Scope_0.bindings.len() implies {
        let l = (#[trigger] items[i]->Scope_0.bindings[k]).1;
        l.0 == items[i]->Scope_0.block && g.has_local(l)
    } by {}
}

/// An operation that nests nothing, needs no rewriting and is sound in the
/// chain can be stored: the invariant holds afterwards.
pub proof fn lemma_emit_keeps_inv(s: State, op: OpView)
    requires
        inv(s),
        !(op is Block),
        !dual_memory(op),
        simple_op_ok(s.f, chain(s.items), op),
    ensures
        inv(s.emit(op)),
        extends(s.emit(op).f, s.f),
{
    let t = s.emit(op);
    let ch = chain(s.items);
    lemma_simple_op_after_growth(s.f, t.f, ch, op);
    lemma_levels_after_growth(s.f, t.f, ch, seq![op]);
    lemma_items_after_growth(s.f, t.f, s.items);
}

/// A local can be declared in the current block: the invariant holds
/// afterwards, and the local exists.
pub proof fn lemma_local_keeps_inv(s: State, name: Seq<char>)
    requires
        inv(s),
    ensures
        inv(s.with_local(name)),
        extends(s.with_local(name).f, s.f),
        s.with_local(name).f.has_local(s.fresh_local()),
        s.fresh_local().0 == s.block(),
{
    let t = s.with_local(name);
    let ch = chain(s.items);
    lemma_levels_after_growth(s.f, t.f, ch, Seq::empty());
    lemma_items_after_growth(s.f, t.f, s.items);
}

/// A label can be minted in the current block: the invariant holds
/// afterwards, and the label exists.
pub proof fn lemma_mint_keeps_inv(s: State)
    requires
        inv(s),
        s.next_label < u64::MAX,
    ensures
        inv(s.mint()),
        extends(s.mint().f, s.f),
        s.mint().f.has_label(s.fresh_label()),
{
    let t = s.mint();
    let ch = chain(s.items);
    lemma_levels_after_growth(s.f, t.f, ch, Seq::empty());
    lemma_items_after_growth(s.f, t.f, s.items);
}

/// A name can be bound, in the innermost scope, to a local of the current
/// block: the invariant holds afterwards.
pub proof fn lemma_bind_keeps_inv(s: State, name: Seq<char>, local: LocalRef)
    requires
        inv(s),
        local.0 == s.block(),
        s.f.has_local(local),
    ensures
        inv(s.bind(name, local)),
{
    let t = s.bind(name, local);
    let i = scope_index(s.items);
    lemma_scope_index(s.items);
    let scope = s.scope();
    let bound_scope = ScopeView { block: scope.block, bindings: scope.bindings.push((name, local)) };
    lemma_chain_after_update(s.items, i, bound_scope);
    lemma_chain_ends(t.items);
    assert forall|k: int| 0 <= k < t.items.len() implies ((#[trigger] t.items[k]) matches ItemView::Scope(
        sc,
    ) ==> t.f.has_block(sc.block)) by {}
    assert forall|a: int, k: int|
        0 <= a < t.items.len() && t.items[a] is Scope && 0 <= k
            < t.items[a]->Scope_0.bindings.len() implies {
        let l = (#[trigger] t.items[a]->Scope_0.bindings[k]).1;
        l.0 == t.items[a]->Scope_0.block && t.f.has_local(l)
    } by {
        if a != i || k < scope.bindings.len() {
            assert(s.f.has_local(s.items[a]->Scope_0.bindings[k].1));
        }
    }
    assert forall|a: int| 0 <= a < t.items.len() implies ((#[trigger] t.items[a]) matches ItemView::Loop(
        l,
    ) ==> t.f.has_label(l.continue_label) && t.f.has_label(l.break_label)) by {}
}

/// The operations of the innermost block of a chain are sound as a whole.
pub proof fn lemma_level_to_sound(f: FuncView, ch: Seq<BlockRef>, from: int)
    requires
        ch.len() > 0,
        level_sound(f, ch, ch.len() - 1),
        0 <= from,
    ensures
        ops_sound(f, ch, from, f.blocks.len() as int),
    decreases f.block(ch.last()).ops.len() - from,
{
    let ops = f.block(ch.last()).ops;
    let last = ch.len() - 1;
    if from < ops.len() {
        lemma_level_to_sound(f, ch, from + 1);
        assert(ch.take(last + 1) =~= ch);
        assert(op_sound(f, ch, ops[from], f.blocks.len() as int));
    }
}

/// A block can be nested in the current one and opened: the invariant
/// holds afterwards.
pub proof fn lemma_open_keeps_inv(s: State)
    requires
        inv(s),
        s.f.blocks.len() <= usize::MAX,
    ensures
        inv(s.open_block()),
        extends(s.open_block().f, s.f),
{
    let t = s.open_block();
    let f = s.f;
    let g = t.f;
    let ch = chain(s.items);
    let child = f.next_block();
    let last = ch.len() - 1;
    let nu = ch.push(child);
    lemma_scope_index(s.items);
    assert(t.items.drop_last() =~= s.items);
    lemma_chain_ends(t.items);
    assert(extends(g, f));
    assert forall|i: int| 0 <= i < g.blocks.len() implies (#[trigger] g.blocks[i]).own_ref.0
        == i by {}
    assert forall|k: int| 0 <= k < t.items.len() implies ((#[trigger] t.items[k]) matches ItemView::Scope(
        sc,
    ) ==> g.has_block(sc.block)) by {}
    assert(bindings_sound(g, t.items)) by {
        assert forall|a: int, k: int|
            0 <= a < t.items.len() && t.items[a] is Scope && 0 <= k
                < t.items[a]->Scope_0.bindings.len() implies {
            let l = (#[trigger] t.items[a]->Scope_0.bindings[k]).1;
            l.0 == t.items[a]->Scope_0.block && g.has_local(l)
        } by {
            if a < s.items.len() {
                assert(t.items[a] == s.items[a]);
            }
        }
    }
    assert(loops_sound(g, t.items)) by {
        assert forall|a: int| 0 <= a < t.items.len() implies ((
        #[trigger] t.items[a]) matches ItemView::Loop(l) ==> g.has_label(l.continue_label)
            && g.has_label(l.break_label)) by {}
    }
    assert forall|j: int| 0 <= j < nu.len() implies #[trigger] level_sound(g, nu, j) by {
        if j <= last {
            let stack = ch.take(j + 1);
            assert(nu.take(j + 1) =~= stack);
            assert(level_sound(f, ch, j));
            assert forall|i: int| 0 <= i < stack.len() implies f.has_block(
                #[trigger] stack[i],
            ) by {}
            assert forall|k: int| 0 <= k < g.block(nu[j]).ops.len() implies entry_sound(
                g,
                nu,
                j,
                #[trigger] g.block(nu[j]).ops[k],
            ) by {
                let op = g.block(nu[j]).ops[k];
                if k < f.block(ch[j]).ops.len() {
                    match op {
                        OpView::Block(c) => {
                            if !(j + 1 < ch.len() && c == ch[j + 1]) {
                                let hi = bound(f, ch, j);
                                let deeper = stack.push(c);
                                assert forall|i: int| 0 <= i < deeper.len() implies f.has_block(
                                    #[trigger] deeper[i],
                                ) by {}
                                lemma_sound_after_growth(f, g, deeper, 0, hi);
                            }
                        },
                        _ => {
                            lemma_simple_op_after_growth(f, g, stack, op);
                        },
                    }
                }
            }
        }
    }
}

/// The innermost scope, which is not the bottom one, can be closed: the
/// invariant holds afterwards.
pub proof fn lemma_close_keeps_inv(s: State)
    requires
        inv(s),
        s.items.len() > 1,
        s.items.last() is Scope,
    ensures
        inv(s.leave()),
{
    let t = s.leave();
    let f = s.f;
    let ch = chain(s.items);
    let nu = chain(t.items);
    assert(ch == nu.push(s.items.last()->Scope_0.block));
    assert(t.items[0] == s.items[0]);
    lemma_chain_ends(t.items);
    let last = nu.len() - 1;
    let closed = ch[last + 1];
    assert forall|k: int| 0 <= k < t.items.len() implies ((#[trigger] t.items[k]) matches ItemView::Scope(
        sc,
    ) ==> f.has_block(sc.block)) by {
        assert(t.items[k] == s.items[k]);
    }
    assert(increasing(nu)) by {
        assert forall|i: int, j: int| 0 <= i < j < nu.len() implies (#[trigger] nu[i]).0 < (
        #[trigger] nu[j]).0 by {
            assert(nu[i] == ch[i] && nu[j] == ch[j]);
        }
    }
    assert forall|j: int| 0 <= j < nu.len() implies f.has_block(#[trigger] nu[j]) by {
        assert(nu[j] == ch[j]);
    }
    assert(bindings_sound(f, t.items)) by {
        assert forall|a: int, k: int|
            0 <= a < t.items.len() && t.items[a] is Scope && 0 <= k
                < t.items[a]->Scope_0.bindings.len() implies {
            let l = (#[trigger] t.items[a]->Scope_0.bindings[k]).1;
            l.0 == t.items[a]->Scope_0.block && f.has_local(l)
        } by {
            assert(t.items[a] == s.items[a]);
            let l = s.items[a]->Scope_0.bindings[k].1;
        }
    }
    assert(loops_sound(f, t.items)) by {
        assert forall|a: int| 0 <= a < t.items.len() implies ((
        #[trigger] t.items[a]) matches ItemView::Loop(l) ==> f.has_label(l.continue_label)
            && f.has_label(l.break_label)) by {
            assert(t.items[a] == s.items[a]);
        }
    }
    assert(level_sound(f, ch, last + 1));
    lemma_level_to_sound(f, ch, 0);
    assert(f.has_block(ch[last + 1]));
    assert forall|j: int| 0 <= j < nu.len() implies #[trigger] level_sound(f, nu, j) by {
        assert(nu.take(j + 1) =~= ch.take(j + 1));
        assert(nu[j] == ch[j]);
        assert(level_sound(f, ch, j));
        if j < last {
            assert(nu[j + 1] == ch[j + 1]);
        }
        assert forall|k: int| 0 <= k < f.block(nu[j]).ops.len() implies entry_sound(
            f,
            nu,
            j,
            #[trigger] f.block(nu[j]).ops[k],
        ) by {
            let op = f.block(nu[j]).ops[k];
            assert(entry_sound(f, ch, j, f.block(ch[j]).ops[k]));
            if j == last {
                match op {
                    OpView::Block(c) => {
                        let stack = ch.take(j + 1);
                        if c == closed {
                            assert(stack.push(c) =~= ch);
                        } else {
                            lemma_sound_up_to_later(
                                f,
                                stack.push(c),
                                0,
                                bound(f, ch, j),
                                f.blocks.len() as int,
                            );
                        }
                    },
                    _ => {},
                }
            }
        }
    }
}

/// A loop whose labels exist can be opened: the invariant holds
/// afterwards.
pub proof fn lemma_enter_loop_keeps_inv(s: State, l: Loop)
    requires
        inv(s),
        s.f.has_label(l.continue_label),
        s.f.has_label(l.break_label),
    ensures
        inv(s.enter(ItemView::Loop(l))),
{
    let t = s.enter(ItemView::Loop(l));
    assert(t.items.drop_last() =~= s.items);
    lemma_chain_ends(t.items);
    assert forall|k: int| 0 <= k < t.items.len() implies ((#[trigger] t.items[k]) matches ItemView::Scope(
        sc,
    ) ==> t.f.has_block(sc.block)) by {}
    assert forall|a: int, k: int|
        0 <= a < t.items.len() && t.items[a] is Scope && 0 <= k
            < t.items[a]->Scope_0.bindings.len() implies {
        let b = (#[trigger] t.items[a]->Scope_0.bindings[k]).1;
        b.0 == t.items[a]->Scope_0.block && t.f.has_local(b)
    } by {}
    assert forall|a: int| 0 <= a < t.items.len() implies ((#[trigger] t.items[a]) matches ItemView::Loop(
        x,
    ) ==> t.f.has_label(x.continue_label) && t.f.has_label(x.break_label)) by {}
}

/// The innermost item, if it is a loop, can be closed: the invariant holds
/// afterwards.
pub proof fn lemma_leave_loop_keeps_inv(s: State)
    requires
        inv(s),
        s.items.len() > 1,
        s.items.last() is Loop,
    ensures
        inv(s.leave()),
{
    let t = s.leave();
    lemma_chain_ends(t.items);
    assert forall|k: int| 0 <= k < t.items.len() implies ((#[trigger] t.items[k]) matches ItemView::Scope(
        sc,
    ) ==> t.f.has_block(sc.block)) by {}
    assert forall|a: int, k: int|
        0 <= a < t.items.len() && t.items[a] is Scope && 0 <= k
            < t.items[a]->Scope_0.bindings.len() implies {
        let b = (#[trigger] t.items[a]->Scope_0.bindings[k]).1;
        b.0 == t.items[a]->Scope_0.block && t.f.has_local(b)
    } by {}
    assert forall|a: int| 0 <= a < t.items.len() implies ((#[trigger] t.items[a]) matches ItemView::Loop(
        x,
    ) ==> t.f.has_label(x.continue_label) && t.f.has_label(x.break_label)) by {}
}

/// The state in which the lowering of a function starts meets the
/// invariant.
pub proof fn lemma_initial_inv(f: FuncView, next_label: nat)
    requires
        f.wf(),
        f.block(f.entry).ops.len() == 0,
        next_label <= u64::MAX,
    ensures
        inv(State::initial(f, next_label)),
{
    let s = State::initial(f, next_label);
    assert(chain(s.items.drop_last()) =~= Seq::<BlockRef>::empty());
    lemma_chain_ends(s.items);
}

/// With only the bottom scope open, a function that meets the invariant is
/// well nested.
pub proof fn lemma_inv_is_well_nested(s: State)
    requires
        inv(s),
        s.items.len() == 1,
    ensures
        well_nested(s.f),
{
    let ch = chain(s.items);
    assert(chain(s.items.drop_last()) =~= Seq::<BlockRef>::empty());
    lemma_level_to_sound(s.f, ch, 0);
}

/// The labels of the innermost open loop exist.
pub proof fn lemma_nearest_loop_sound(f: FuncView, items: Seq<ItemView>)
    requires
        loops_sound(f, items),
    ensures
        crate::middle::nearest_loop(items) matches Some(l) ==> f.has_label(l.continue_label)
            && f.has_label(l.break_label),
    decreases items.len(),
{
    if items.len() > 0 {
        match items.last() {
            ItemView::Loop(l) => {
            },
            ItemView::Scope(_) => {
                let front = items.drop_last();
                assert forall|i: int| 0 <= i < front.len() implies ((
                #[trigger] front[i]) matches ItemView::Loop(l) ==> f.has_label(l.continue_label)
                    && f.has_label(l.break_label)) by {}
                lemma_nearest_loop_sound(f, front);
            },
        }
    }
}

/// The current block is on the chain.
pub proof fn lemma_current_on_chain(s: State)
    requires
        inv(s),
    ensures
        chain(s.items).contains(s.block()),
{
}

/// Binding a name does not change which block is being filled.
pub proof fn lemma_bind_keeps_block(s: State, name: Seq<char>, local: LocalRef)
    requires
        s.wf(),
    ensures
        s.bind(name, local).block() == s.block(),
{
    let t = s.bind(name, local);
    let i = scope_index(s.items);
    lemma_scope_index(s.items);
    let scope = s.scope();
    let bound_scope = ScopeView { block: scope.block, bindings: scope.bindings.push((name, local)) };
    lemma_chain_after_update(s.items, i, bound_scope);
    lemma_chain_ends(t.items);
    lemma_chain_ends(s.items);
}

} // verus!

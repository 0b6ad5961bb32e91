//! Whether a function can be emitted, found out before anything is written.

use crate::ir::{
    Block, BlockRef, Func, LabelRef, Location, Op, Type, lemma_locals_size_bounds,
    lemma_locals_size_nonnegative, lemma_locals_size_step, locals_size,
};
use crate::ir::emit::{
    active, emittable, headroom, lemma_stack_girth_nonnegative, loc_ok, op_ok, ops_ok,
    simple_op_ok, stack_girth,
};
use vstd::prelude::*;

verus! {

/// The girth of a block, or nothing where it does not fit the machine's
/// word.
pub fn checked_girth(block: &Block) -> (g: Option<i64>)
    ensures
        match g {
            Some(g) => g == block@.girth(),
            None => block@.girth() > i64::MAX,
        },
{
    let ghost locals = block@.locals;
    let mut res: i64 = 0;
    let mut i: usize = 0;
    while i < block.locals.len()
        invariant
            i <= block.locals@.len(),
            locals == block@.locals,
            locals.len() == block.locals@.len(),
            res == locals_size(locals.take(i as int)),
        decreases block.locals@.len() - i,
    {
        proof {
            lemma_locals_size_step(locals, i as int);
            lemma_locals_size_bounds(locals, i + 1);
            lemma_locals_size_bounds(locals, i as int);
        }
        let width: i64 = match block.locals[i].typ {
            Type::I64 => 8,
        };
        match res.checked_add(width) {
            Some(sum) => {
                res = sum;
            },
            None => {
                return None;
            },
        }
        i = i + 1;
    }
    proof {
        assert(locals.take(i as int) =~= locals);
    }
    Some(res)
}

fn check_location(f: &Func, stack: &Vec<BlockRef>, loc: &Location) -> (ok: bool)
    ensures
        ok == loc_ok(f@, stack@, *loc),
{
    match loc {
        Location::Local(l) => {
            if l.0.0 >= f.blocks.len() {
                return false;
            }
            if l.1 >= f.blocks[l.0.0].locals.len() {
                return false;
            }
            let mut i: usize = 0;
            while i < stack.len()
                invariant
                    i <= stack@.len(),
                    f@.has_local(*l),
                    *loc == Location::Local(*l),
                    forall|j: int| 0 <= j < i ==> stack@[j] != l.0,
                decreases stack@.len() - i,
            {
                if stack[i] == l.0 {
                    return true;
                }
                i = i + 1;
            }
            false
        },
        _ => true,
    }
}

fn check_label(f: &Func, l: LabelRef) -> (ok: bool)
    ensures
        ok == f@.has_label(l),
{
    l.0.0 < f.blocks.len() && l.1 < f.blocks[l.0.0].labels.len()
}

fn check_simple_op(f: &Func, stack: &Vec<BlockRef>, op: &Op) -> (ok: bool)
    ensures
        ok == simple_op_ok(f@, stack@, op@),
{
    match op {
        Op::Xor(o) => check_location(f, stack, &o.lhs) && check_location(f, stack, &o.rhs),
        Op::Mov(o) => check_location(f, stack, &o.dst) && check_location(f, stack, &o.src),
        Op::Add(o) => check_location(f, stack, &o.lhs) && check_location(f, stack, &o.rhs),
        Op::Sub(o) => check_location(f, stack, &o.lhs) && check_location(f, stack, &o.rhs),
        Op::Cmp(o) => check_location(f, stack, &o.lhs) && check_location(f, stack, &o.rhs),
        Op::Jg(o) => check_label(f, o.dst),
        Op::Jmp(o) => check_label(f, o.dst),
        Op::Label(l) => check_label(f, *l),
        Op::Ret(value) => match value {
            Some(loc) => check_location(f, stack, loc),
            None => true,
        },
        Op::Comment(_) => true,
        Op::Block(_) => true,
    }
}

fn check_op(f: &Func, stack: &mut Vec<BlockRef>, room: i64, op: &Op) -> (ok: bool)
    requires
        active(f@, old(stack)@),
        room == stack_girth(f@, old(stack)@),
    ensures
        final(stack)@ == old(stack)@,
        ok == op_ok(f@, old(stack)@, op@),
    decreases headroom(f@, old(stack)@), 0int,
{
    match op {
        Op::Block(c) => {
            if c.0 >= f.blocks.len() {
                return false;
            }
            if stack.len() > 0 {
                let top = stack[stack.len() - 1];
                if top.0 >= c.0 {
                    return false;
                }
            }
            let girth = match checked_girth(c.borrow(f)) {
                Some(g) => g,
                None => {
                    proof {
                        lemma_stack_girth_nonnegative(f@, stack@);
                        assert(stack@.push(*c).drop_last() =~= stack@);
                    }
                    return false;
                },
            };
            proof {
                assert(stack@.push(*c).drop_last() =~= stack@);
            }
            let total = match room.checked_add(girth) {
                Some(t) => t,
                None => {
                    proof {
                        lemma_stack_girth_nonnegative(f@, stack@);
                        lemma_locals_size_nonnegative(f@.block(*c).locals);
                    }
                    return false;
                },
            };
            stack.push(*c);
            let ok = check_block(f, stack, total);
            stack.pop();
            ok
        },
        _ => check_simple_op(f, stack, op),
    }
}

fn check_block(f: &Func, stack: &mut Vec<BlockRef>, room: i64) -> (ok: bool)
    requires
        active(f@, old(stack)@),
        old(stack)@.len() > 0,
        room == stack_girth(f@, old(stack)@),
    ensures
        final(stack)@ == old(stack)@,
        ok == ops_ok(f@, old(stack)@, 0),
    decreases headroom(f@, old(stack)@), 1int,
{
    let ghost views = f@;
    let ghost blocks = stack@;
    let block = stack[stack.len() - 1];
    let b = block.borrow(f);
    let mut i: usize = 0;
    while i < b.ops.len()
        invariant
            i <= b.ops@.len(),
            views == f@,
            blocks == stack@,
            blocks == old(stack)@,
            blocks.len() > 0,
            blocks.last() == block,
            b@ == views.block(block),
            b@.ops.len() == b.ops@.len(),
            active(views, blocks),
            room == stack_girth(views, blocks),
            ops_ok(views, blocks, 0) == ops_ok(views, blocks, i as int),
        decreases b.ops@.len() - i,
    {
        if !check_op(f, stack, room, &b.ops[i]) {
            return false;
        }
        i = i + 1;
    }
    true
}

/// Whether the function can be emitted.
pub fn is_emittable(f: &Func) -> (ok: bool)
    ensures
        ok == emittable(f@),
{
    if f.entry.0 >= f.blocks.len() {
        return false;
    }
    let entry = f.entry;
    proof {
        assert(seq![entry].drop_last() =~= Seq::<BlockRef>::empty());
        assert(stack_girth(f@, Seq::<BlockRef>::empty()) == 0);
    }
    let girth = match checked_girth(entry.borrow(f)) {
        Some(g) => g,
        None => {
            return false;
        },
    };
    let mut stack: Vec<BlockRef> = Vec::new();
    stack.push(entry);
    check_block(f, &mut stack, girth)
}

} // verus!

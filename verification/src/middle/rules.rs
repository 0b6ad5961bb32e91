//! The rules of the pass, as functions from state to state: what each
//! statement and each expression adds to the function that is being built.

use crate::ast;
use crate::diag::{Color, Error};
use crate::ir::{
    Add, Cmp, FuncView, Jg, Jmp, LabelRef, LocalRef, Location, Mov, OpView, Sub, scratch,
};
use crate::middle::{Failure, ItemView, Loop, State, lookup, nearest_loop};
use vstd::prelude::*;

verus! {

/// The two-operand operations that the value of an expression is built
/// with.
#[derive(Debug, Clone, Copy, PartialEq, Eq, Structural)]
pub enum Binary {
    Add,
    Sub,
    Compare,
}

/// How a condition steers the jump: whether the jump is taken to run the
/// body or to pass it by, and whether the sides are compared the other way
/// round.
#[derive(Debug, Clone, Copy, PartialEq, Eq, Structural)]
pub struct Branch {
    pub strict: bool,
    pub swap: bool,
}

pub open spec fn binary_op(kind: Binary, lhs: Location, rhs: Location) -> OpView {
    match kind {
        Binary::Add => OpView::Add(Add { lhs, rhs }),
        Binary::Sub => OpView::Sub(Sub { lhs, rhs }),
        Binary::Compare => OpView::Cmp(Cmp { lhs, rhs }),
    }
}

/// A move of `src` to `dst`.
pub open spec fn mov_op(dst: Location, src: Location) -> OpView {
    OpView::Mov(Mov { dst, src })
}

/// An expression that names its value outright: a literal or a variable.
pub open spec fn is_simple(e: ast::Expr) -> bool {
    e is IntLit || e is Identifier
}

/// An expression whose value the pass can compute: literals, variables,
/// and sums and differences of such.
pub open spec fn lowerable(e: ast::Expr) -> bool
    decreases e,
{
    match e {
        ast::Expr::IntLit(_) => true,
        ast::Expr::Identifier(_) => true,
        ast::Expr::Bexp(b) => (b.operator == ast::Bop::Plus || b.operator == ast::Bop::Minus)
            && lowerable(*b.lhs) && lowerable(*b.rhs),
        _ => false,
    }
}

/// The operand that a simple expression names.
pub open spec fn operand(items: Seq<ItemView>, e: ast::Expr) -> Result<Location, Failure> {
    match e {
        ast::Expr::IntLit(l) => Ok(Location::Imm64(l.value)),
        ast::Expr::Identifier(id) => match lookup(items, id.value@) {
            Some(l) => Ok(Location::Local(l)),
            None => Err(Failure::Unresolved(id)),
        },
        _ => Ok(scratch()),
    }
}

/// The state after the value of `e` is brought into the scratch register.
pub open spec fn loaded(s: State, e: ast::Expr) -> Result<State, Failure>
    decreases e,
{
    match e {
        ast::Expr::IntLit(l) => Ok(s.emit(mov_op(scratch(), Location::Imm64(l.value)))),
        ast::Expr::Identifier(id) => match lookup(s.items, id.value@) {
            Some(l) => Ok(s.emit(mov_op(scratch(), Location::Local(l)))),
            None => Err(Failure::Unresolved(id)),
        },
        ast::Expr::Bexp(b) => combined(
            s,
            if b.operator == ast::Bop::Minus {
                Binary::Sub
            } else {
                Binary::Add
            },
            b,
            false,
        ),
        _ => Ok(s),
    }
}

/// The state after an operation is applied to the two sides of `b`, the
/// first side in the scratch register. With `swap` the right side of `b`
/// comes first.
///
/// Where the second side is simple, the first is loaded and the operation
/// names the second. Otherwise the second is computed first and kept in a
/// nameless local of the current block while the first is loaded.
pub open spec fn combined(s: State, kind: Binary, b: ast::Bexp, swap: bool) -> Result<
    State,
    Failure,
>
    decreases b,
{
    let first = if swap {
        *b.rhs
    } else {
        *b.lhs
    };
    let second = if swap {
        *b.lhs
    } else {
        *b.rhs
    };
    if is_simple(second) {
        match loaded(s, first) {
            Err(failure) => Err(failure),
            Ok(s1) => match operand(s1.items, second) {
                Err(failure) => Err(failure),
                Ok(loc) => Ok(s1.emit(binary_op(kind, scratch(), loc))),
            },
        }
    } else {
        match loaded(s, second) {
            Err(failure) => Err(failure),
            Ok(s1) => {
                let kept = s1.fresh_local();
                let s2 = s1.with_local(Seq::empty()).emit(
                    mov_op(Location::Local(kept), scratch()),
                );
                match loaded(s2, first) {
                    Err(failure) => Err(failure),
                    Ok(s3) => Ok(s3.emit(binary_op(kind, scratch(), Location::Local(kept)))),
                }
            },
        }
    }
}

/// The state after the value of `value` is stored in `target`: a literal is
/// moved there outright, anything else goes through the scratch register.
pub open spec fn assigned(s: State, target: LocalRef, value: ast::Expr) -> Result<State, Failure> {
    match value {
        ast::Expr::IntLit(l) => Ok(
            s.emit(mov_op(Location::Local(target), Location::Imm64(l.value))),
        ),
        _ => match loaded(s, value) {
            Err(failure) => Err(failure),
            Ok(s1) => Ok(s1.emit(mov_op(Location::Local(target), scratch()))),
        },
    }
}

/// The state after an expression statement. Only an assignment to a
/// variable is lowered: the variable must be declared, and a value that the
/// pass cannot compute leaves the state as it is.
pub open spec fn expressed(s: State, e: ast::Expr) -> Result<State, Failure> {
    match e {
        ast::Expr::Bexp(b) => if b.operator == ast::Bop::Assign {
            match *b.lhs {
                ast::Expr::Identifier(id) => match lookup(s.items, id.value@) {
                    None => Err(Failure::Unresolved(id)),
                    Some(target) => if lowerable(*b.rhs) {
                        assigned(s, target, *b.rhs)
                    } else {
                        Ok(s)
                    },
                },
                _ => Ok(s),
            }
        } else {
            Ok(s)
        },
        _ => Ok(s),
    }
}

/// The state after a variable declaration: a local in the current block,
/// its name bound in the innermost scope, and, where the initial value is a
/// literal, the move of that literal to the local.
pub open spec fn declared(s: State, vd: ast::VDecl) -> State {
    let local = s.fresh_local();
    let s1 = s.declare(vd.name.value@);
    match vd.value {
        Some(ast::Expr::IntLit(l)) => s1.emit(
            mov_op(Location::Local(local), Location::Imm64(l.value)),
        ),
        _ => s1,
    }
}

/// The state after a return statement. A value that the pass cannot compute
/// leaves the state as it is.
pub open spec fn returned(s: State, r: ast::Return) -> Result<State, Failure> {
    match r.expr {
        None => Ok(s.emit(OpView::Ret(None))),
        Some(e) => if !lowerable(e) {
            Ok(s)
        } else {
            match e {
                ast::Expr::IntLit(l) => Ok(s.emit(OpView::Ret(Some(Location::Imm64(l.value))))),
                _ => match loaded(s, e) {
                    Err(failure) => Err(failure),
                    Ok(s1) => Ok(s1.emit(OpView::Ret(Some(scratch())))),
                },
            }
        },
    }
}

/// The state after a `break` or a `continue`: a jump to the label of the
/// innermost loop, or nothing outside of any loop.
pub open spec fn jumped(s: State, to_end: bool) -> State {
    match nearest_loop(s.items) {
        Some(l) => s.emit(
            OpView::Jmp(
                Jmp {
                    dst: if to_end {
                        l.break_label
                    } else {
                        l.continue_label
                    },
                },
            ),
        ),
        None => s,
    }
}

/// How the condition of an `if` steers its jump, where the pass can lower
/// it: it must compare two values that the pass can compute.
pub open spec fn branch(e: ast::Expr) -> Option<Branch> {
    match e {
        ast::Expr::Bexp(b) => if lowerable(*b.lhs) && lowerable(*b.rhs) {
            match b.operator {
                ast::Bop::Gt => Some(Branch { strict: true, swap: false }),
                ast::Bop::Lt => Some(Branch { strict: true, swap: true }),
                ast::Bop::GtEq => Some(Branch { strict: false, swap: true }),
                ast::Bop::LtEq => Some(Branch { strict: false, swap: false }),
                _ => None,
            }
        } else {
            None
        },
        _ => None,
    }
}

/// The label that a body jumps to which is nothing but a `break` or a
/// `continue` inside a loop.
pub open spec fn shortcut(items: Seq<ItemView>, body: ast::Block) -> Option<LabelRef> {
    if body.items@.len() == 1 {
        match body.items@[0] {
            ast::Statement::Break => match nearest_loop(items) {
                Some(l) => Some(l.break_label),
                None => None,
            },
            ast::Statement::Continue => match nearest_loop(items) {
                Some(l) => Some(l.continue_label),
                None => None,
            },
            _ => None,
        }
    } else {
        None
    }
}

/// The state after one statement.
pub open spec fn lowered(s: State, stmt: ast::Statement) -> Result<State, Failure>
    decreases stmt,
{
    match stmt {
        ast::Statement::VDecl(vd) => Ok(declared(s, vd)),
        ast::Statement::Loop(l) => looped(s, l),
        ast::Statement::If(i) => branched(s, i),
        ast::Statement::Block(b) => nested(s, b),
        ast::Statement::Break => Ok(jumped(s, true)),
        ast::Statement::Continue => Ok(jumped(s, false)),
        ast::Statement::Return(r) => returned(s, r),
        ast::Statement::Expression(e) => expressed(s, e),
    }
}

/// The state after a run of statements, in order. The first failure ends
/// it.
pub open spec fn lowered_all(s: State, items: Seq<ast::Statement>) -> Result<State, Failure>
    decreases items,
{
    if items.len() == 0 {
        Ok(s)
    } else {
        match lowered_all(s, items.drop_last()) {
            Err(failure) => Err(failure),
            Ok(s1) => lowered(s1, items.last()),
        }
    }
}

/// The state after a block of statements is lowered into a block of its
/// own, nested in the current one.
pub open spec fn nested(s: State, body: ast::Block) -> Result<State, Failure>
    decreases body, 0int,
{
    match lowered_all(s.open_block(), body.items@) {
        Err(failure) => Err(failure),
        Ok(s1) => Ok(s1.leave()),
    }
}

/// The state after a loop. Two labels are minted in the current block, the
/// one to continue at and the one to break to. The body gets a block of its
/// own, which starts with the first label and ends with the jump back to it
/// and with the second label.
pub open spec fn looped(s: State, l: ast::Loop) -> Result<State, Failure>
    decreases l,
{
    if s.next_label + 2 > u64::MAX {
        Err(Failure::LabelsExhausted)
    } else {
        let continue_label = s.fresh_label();
        let s1 = s.mint();
        let break_label = s1.fresh_label();
        let s2 = s1.mint().enter(ItemView::Loop(Loop { continue_label, break_label }));
        let s3 = s2.open_block().emit(OpView::Label(continue_label));
        match lowered_all(s3, l.body.items@) {
            Err(failure) => Err(failure),
            Ok(s4) => Ok(
                s4.emit(OpView::Jmp(Jmp { dst: continue_label })).emit(
                    OpView::Label(break_label),
                ).leave().leave(),
            ),
        }
    }
}

/// The state after an `if` whose body is nothing but a jump out of or back
/// into the loop: the two values are compared, and the conditional jump
/// goes to the loop's label.
pub open spec fn jumped_if(s: State, b: ast::Bexp, swap: bool, target: LabelRef) -> Result<
    State,
    Failure,
> {
    match combined(s, Binary::Compare, b, swap) {
        Err(failure) => Err(failure),
        Ok(s1) => Ok(s1.emit(OpView::Jg(Jg { dst: target }))),
    }
}

/// The state after an `if` whose body runs when the first value compared is
/// the greater: the conditional jump goes to a label in front of the body,
/// and a second jump passes the body by.
pub open spec fn entered_if(s: State, b: ast::Bexp, swap: bool, body: ast::Block) -> Result<
    State,
    Failure,
>
    decreases body, 1int,
{
    if s.next_label + 2 > u64::MAX {
        Err(Failure::LabelsExhausted)
    } else {
        let then_label = s.fresh_label();
        let s1 = s.mint();
        let end_label = s1.fresh_label();
        let s2 = s1.mint();
        match combined(s2, Binary::Compare, b, swap) {
            Err(failure) => Err(failure),
            Ok(s3) => {
                let s4 = s3.emit(OpView::Jg(Jg { dst: then_label })).emit(
                    OpView::Jmp(Jmp { dst: end_label }),
                ).emit(OpView::Label(then_label));
                match nested(s4, body) {
                    Err(failure) => Err(failure),
                    Ok(s5) => Ok(s5.emit(OpView::Label(end_label))),
                }
            },
        }
    }
}

/// The state after an `if` whose body runs unless the first value compared
/// is the greater: the conditional jump passes the body by.
pub open spec fn passed_unless(s: State, b: ast::Bexp, swap: bool, body: ast::Block) -> Result<
    State,
    Failure,
>
    decreases body, 1int,
{
    if s.next_label + 1 > u64::MAX {
        Err(Failure::LabelsExhausted)
    } else {
        let end_label = s.fresh_label();
        let s1 = s.mint();
        match combined(s1, Binary::Compare, b, swap) {
            Err(failure) => Err(failure),
            Ok(s2) => match nested(s2.emit(OpView::Jg(Jg { dst: end_label })), body) {
                Err(failure) => Err(failure),
                Ok(s3) => Ok(s3.emit(OpView::Label(end_label))),
            },
        }
    }
}

/// The state after an `if`. A condition that the pass cannot lower leaves
/// the state as it is.
///
/// The only conditional jump is the one that is taken when the first value
/// compared is the greater. Where that is when the body runs, the jump goes
/// to a label in front of the body, and a second jump passes the body by;
/// but a body that is nothing but a `break` or a `continue` inside a loop
/// is replaced by the conditional jump to the loop's label. Where the body
/// runs in the other case, the conditional jump passes it by.
pub open spec fn branched(s: State, i: ast::If) -> Result<State, Failure>
    decreases i,
{
    match i.cond {
        ast::Expr::Bexp(b) => match branch(i.cond) {
            None => Ok(s),
            Some(br) => if br.strict {
                match shortcut(s.items, i.body) {
                    Some(target) => jumped_if(s, b, br.swap, target),
                    None => entered_if(s, b, br.swap, i.body),
                }
            } else {
                passed_unless(s, b, br.swap, i.body)
            },
        },
        _ => Ok(s),
    }
}

/// The state in which the lowering of a declared function starts.
pub open spec fn function_start(decl: ast::FDecl, next_label: nat) -> State {
    State::initial(
        FuncView { public: decl.public, ..FuncView::fresh(decl.name.value@) },
        next_label,
    )
}

/// The state after a declared function is lowered.
pub open spec fn lowered_function(decl: ast::FDecl, next_label: nat) -> Result<State, Failure> {
    lowered_all(function_start(decl, next_label), decl.body.items@)
}

/// The functions of a unit, lowered in order, and the number of the next
/// label after them. The first failure ends it.
pub open spec fn lowered_unit(funs: Seq<ast::FDecl>, next_label: nat) -> Result<
    (Seq<FuncView>, nat),
    Failure,
>
    decreases funs.len(),
{
    if funs.len() == 0 {
        Ok((Seq::empty(), next_label))
    } else {
        match lowered_unit(funs.drop_last(), next_label) {
            Err(failure) => Err(failure),
            Ok((done, next)) => match lowered_function(funs.last(), next) {
                Err(failure) => Err(failure),
                Ok(s) => Ok((done.push(s.f), s.next_label)),
            },
        }
    }
}

/// The message of the diagnostic for an identifier that no scope declares.
pub open spec fn unresolved_message(name: Seq<char>) -> Seq<char> {
    "cannot find value `"@ + name + "` in this scope"@
}

/// The error tells of the failure: for an unresolved identifier, it is a
/// diagnostic with a red caret at the place of that identifier.
pub open spec fn reports(e: Error, failure: Failure) -> bool {
    match failure {
        Failure::Unresolved(id) => {
            &&& e matches Error::Diag(d)
            &&& d.pos.span == id.loc
            &&& d.pos.line == id.loc.line()
            &&& d.pos.column == id.loc.column()
            &&& d.caret_color == Color::Red
            &&& d.prefix@ == Seq::<char>::empty()
            &&& d.message@ == unresolved_message(id.value@)
        },
        Failure::LabelsExhausted => e is LabelsExhausted,
    }
}

/// The outcome of a step agrees with what was expected of it: success with
/// the expected state, or an error that tells of the expected failure.
pub open spec fn agrees(result: Result<(), Error>, after: State, expected: Result<State, Failure>) -> bool {
    match expected {
        Ok(s) => result is Ok && after == s,
        Err(failure) => result matches Err(e) && reports(e, failure),
    }
}

} // verus!

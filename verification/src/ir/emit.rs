//! The emitter: from a finished function to assembly text.
//!
//! While it walks a function, the emitter keeps the stack of the blocks it is
//! inside of. The address of a local is worked out from that stack each time
//! the local is named; nothing about it is stored in the function.

use crate::ir::{
    Block, BlockRef, Func, FuncView, Girthy, LabelRef, LocalRef, Location, Op, OpView, Reg,
    byte_width_to_opsize, is_memory, lemma_locals_size_bounds, lemma_locals_size_nonnegative,
    lemma_locals_size_step, locals_size, location_size, opsize_name, reg_name, scratch,
};
use crate::text::{int_text, left_justified, nat_text, push_int, push_left_justified, push_nat};
use vstd::prelude::*;

verus! {

/// The blanks in front of every instruction.
pub open spec fn indent() -> Seq<char> {
    "            "@
}

/// One instruction line: the mnemonic in a column of ten, then the operands.
pub open spec fn instruction_text(name: Seq<char>, operands: Seq<char>) -> Seq<char> {
    indent() + left_justified(name, 10) + operands + "\n"@
}

/// One comment line.
pub open spec fn comment_text(text: Seq<char>) -> Seq<char> {
    indent() + "; "@ + text + "\n"@
}

/// The line that defines a label.
pub open spec fn label_text(name: Seq<char>) -> Seq<char> {
    name + ":\n"@
}

/// The total girth of the blocks on a stack.
pub open spec fn stack_girth(f: FuncView, stack: Seq<BlockRef>) -> int
    decreases stack.len(),
{
    if stack.len() == 0 {
        0
    } else {
        stack_girth(f, stack.drop_last()) + f.block(stack.last()).girth()
    }
}

/// The total girth of the blocks that lie under block `b` on a stack, or 0
/// where `b` is not on it.
pub open spec fn girth_below(f: FuncView, stack: Seq<BlockRef>, b: BlockRef) -> int
    decreases stack.len(),
{
    if stack.len() == 0 {
        0
    } else if stack.last() == b {
        stack_girth(f, stack.drop_last())
    } else {
        girth_below(f, stack.drop_last(), b)
    }
}

/// How far below the frame base a local lies: the girth of the blocks under
/// its own block, and the sizes of the locals of its block up to and
/// including itself.
pub open spec fn offset(f: FuncView, stack: Seq<BlockRef>, l: LocalRef) -> int {
    girth_below(f, stack, l.0) + locals_size(f.block(l.0).locals.take(l.1 + 1))
}

/// The girth of the `n` blocks on top of a stack.
pub open spec fn top_girth(f: FuncView, stack: Seq<BlockRef>, n: nat) -> int {
    stack_girth(f, stack) - stack_girth(f, stack.take(stack.len() - n))
}

/// A stack that the emitter can work on: its blocks exist, and their girth
/// fits the machine's word.
pub open spec fn active(f: FuncView, stack: Seq<BlockRef>) -> bool {
    &&& forall|i: int| 0 <= i < stack.len() ==> f.has_block(#[trigger] stack[i])
    &&& stack_girth(f, stack) <= i64::MAX
}

/// The text of a memory operand: a register and a distance from it.
pub open spec fn displaced_text(register: Reg, displacement: int) -> Seq<char> {
    "["@ + reg_name(register) + (if displacement > 0 {
        "+"@ + int_text(displacement)
    } else if displacement < 0 {
        int_text(displacement)
    } else {
        Seq::empty()
    }) + "]"@
}

/// The text of an operand, inside the blocks of `stack`.
pub open spec fn location_text(f: FuncView, stack: Seq<BlockRef>, loc: Location) -> Seq<char> {
    match loc {
        Location::Register(r) => reg_name(r),
        Location::Local(l) => displaced_text(Reg::RBP, -offset(f, stack, l)),
        Location::Displaced(d) => displaced_text(d.register, d.displacement as int),
        Location::Imm64(v) => int_text(v as int),
    }
}

/// The size keyword in front of a memory operand; nothing in front of
/// another.
pub open spec fn opsize_text(f: FuncView, loc: Location) -> Seq<char> {
    if is_memory(loc) {
        opsize_name(location_size(f, loc)) + " "@
    } else {
        Seq::empty()
    }
}

/// Every operand has a width that the assembler has a keyword for.
pub proof fn lemma_every_width_has_a_keyword(f: FuncView, loc: Location)
    ensures
        location_size(f, loc) == 8,
        opsize_name(location_size(f, loc)) == "qword"@,
{
}

/// The operands of a two-operand instruction.
pub open spec fn operands_text(f: FuncView, stack: Seq<BlockRef>, lhs: Location, rhs: Location) -> Seq<
    char,
> {
    opsize_text(f, lhs) + location_text(f, stack, lhs) + ", "@ + location_text(f, stack, rhs)
}

/// An instruction that moves the stack pointer by `amount` bytes.
pub open spec fn adjust_text(name: Seq<char>, amount: int) -> Seq<char> {
    instruction_text(name, reg_name(Reg::RSP) + ", "@ + int_text(amount))
}

/// What is written on leaving the `n` blocks on top of a stack: a comment,
/// and the instruction that gives their room back.
pub open spec fn exit_text(f: FuncView, stack: Seq<BlockRef>, n: nat) -> Seq<char> {
    comment_text(
        "exiting "@ + nat_text(n) + " "@ + (if n == 1 {
            "block"@
        } else {
            "blocks"@
        }),
    ) + adjust_text("add"@, top_girth(f, stack, n))
}

/// What is written for a return: the value, if any, goes to the accumulator;
/// the room of every block on the stack is given back; then the function
/// returns.
pub open spec fn ret_text(f: FuncView, stack: Seq<BlockRef>, value: Option<Location>) -> Seq<char> {
    (match value {
        Some(loc) => instruction_text("mov"@, operands_text(f, stack, scratch(), loc)),
        None => Seq::empty(),
    }) + exit_text(f, stack, stack.len()) + instruction_text("ret"@, "0"@)
}

/// The text of an operation other than a nested block.
pub open spec fn simple_op_text(f: FuncView, stack: Seq<BlockRef>, op: OpView) -> Seq<char> {
    match op {
        OpView::Xor(o) => instruction_text("xor"@, operands_text(f, stack, o.lhs, o.rhs)),
        OpView::Mov(o) => instruction_text("mov"@, operands_text(f, stack, o.dst, o.src)),
        OpView::Add(o) => instruction_text("add"@, operands_text(f, stack, o.lhs, o.rhs)),
        OpView::Sub(o) => instruction_text("sub"@, operands_text(f, stack, o.lhs, o.rhs)),
        OpView::Cmp(o) => instruction_text("cmp"@, operands_text(f, stack, o.lhs, o.rhs)),
        OpView::Jg(o) => instruction_text("jg"@, f.label(o.dst)),
        OpView::Jmp(o) => instruction_text("jmp"@, f.label(o.dst)),
        OpView::Label(l) => label_text(f.label(l)),
        OpView::Ret(value) => ret_text(f, stack, value),
        OpView::Comment(c) => comment_text(
            match c {
                Some(s) => s,
                None => Seq::empty(),
            },
        ),
        OpView::Block(_) => Seq::empty(),
    }
}

/// What is written on entering the block on top of a stack: a comment, and
/// the instruction that makes room for the block's locals.
pub open spec fn prologue_text(f: FuncView, stack: Seq<BlockRef>) -> Seq<char> {
    comment_text("block prologue start"@) + adjust_text("sub"@, f.block(stack.last()).girth())
}

/// How many blocks of the arena come after the one on top of the stack: what
/// is left for nesting.
pub open spec fn headroom(f: FuncView, stack: Seq<BlockRef>) -> int {
    if stack.len() == 0 {
        f.blocks.len() as int + 1
    } else {
        f.blocks.len() - stack.last().0
    }
}

/// A block can be nested in the block on top of a stack: it exists and was
/// created later.
pub open spec fn nestable(f: FuncView, stack: Seq<BlockRef>, c: BlockRef) -> bool {
    &&& f.has_block(c)
    &&& stack.len() > 0 ==> (f.has_block(stack.last()) && stack.last().0 < c.0)
}

/// The text of one operation, inside the blocks of `stack`. A nested block
/// is entered, written, and left.
pub open spec fn op_text(f: FuncView, stack: Seq<BlockRef>, op: OpView) -> Seq<char>
    decreases headroom(f, stack), 0int,
{
    match op {
        OpView::Block(c) => if nestable(f, stack, c) {
            block_text(f, stack.push(c)) + exit_text(f, stack.push(c), 1)
        } else {
            Seq::empty()
        },
        _ => simple_op_text(f, stack, op),
    }
}

/// The text of the block on top of `stack`: its prologue and its
/// operations.
pub open spec fn block_text(f: FuncView, stack: Seq<BlockRef>) -> Seq<char>
    decreases headroom(f, stack), f.block(stack.last()).ops.len() + 2,
{
    prologue_text(f, stack) + ops_text(f, stack, 0)
}

/// The text of the operations of the block on top of `stack`, from the one
/// at `from` on.
pub open spec fn ops_text(f: FuncView, stack: Seq<BlockRef>, from: int) -> Seq<char>
    decreases headroom(f, stack), f.block(stack.last()).ops.len() - from + 1,
{
    let ops = f.block(stack.last()).ops;
    if 0 <= from < ops.len() {
        op_text(f, stack, ops[from]) + ops_text(f, stack, from + 1)
    } else {
        Seq::empty()
    }
}

/// An operand that can be written inside the blocks of `stack`: a local must
/// exist, and its block must be on the stack.
pub open spec fn loc_ok(f: FuncView, stack: Seq<BlockRef>, loc: Location) -> bool {
    loc matches Location::Local(l) ==> stack.contains(l.0) && f.has_local(l)
}

/// An operation other than a nested block that can be written inside the
/// blocks of `stack`.
pub open spec fn simple_op_ok(f: FuncView, stack: Seq<BlockRef>, op: OpView) -> bool {
    match op {
        OpView::Xor(o) => loc_ok(f, stack, o.lhs) && loc_ok(f, stack, o.rhs),
        OpView::Mov(o) => loc_ok(f, stack, o.dst) && loc_ok(f, stack, o.src),
        OpView::Add(o) => loc_ok(f, stack, o.lhs) && loc_ok(f, stack, o.rhs),
        OpView::Sub(o) => loc_ok(f, stack, o.lhs) && loc_ok(f, stack, o.rhs),
        OpView::Cmp(o) => loc_ok(f, stack, o.lhs) && loc_ok(f, stack, o.rhs),
        OpView::Jg(o) => f.has_label(o.dst),
        OpView::Jmp(o) => f.has_label(o.dst),
        OpView::Label(l) => f.has_label(l),
        OpView::Ret(value) => value matches Some(loc) ==> loc_ok(f, stack, loc),
        OpView::Comment(_) => true,
        OpView::Block(_) => true,
    }
}

/// An operation that can be written inside the blocks of `stack`. A nested
/// block must have been created after the block that holds it, the stack
/// with it on top must fit, and its own operations must be writable there.
pub open spec fn op_ok(f: FuncView, stack: Seq<BlockRef>, op: OpView) -> bool
    decreases headroom(f, stack), 0int,
{
    match op {
        OpView::Block(c) => {
            &&& nestable(f, stack, c)
            &&& stack_girth(f, stack.push(c)) <= i64::MAX
            &&& ops_ok(f, stack.push(c), 0)
        },
        _ => simple_op_ok(f, stack, op),
    }
}

/// The operations of the block on top of `stack`, from the one at `from`
/// on, can all be written.
pub open spec fn ops_ok(f: FuncView, stack: Seq<BlockRef>, from: int) -> bool
    decreases headroom(f, stack), f.block(stack.last()).ops.len() - from + 1,
{
    let ops = f.block(stack.last()).ops;
    if 0 <= from < ops.len() {
        op_ok(f, stack, ops[from]) && ops_ok(f, stack, from + 1)
    } else {
        true
    }
}

/// The function can be emitted: its entry exists, and everything that is
/// reached from there can be written.
pub open spec fn emittable(f: FuncView) -> bool {
    &&& f.has_block(f.entry)
    &&& active(f, seq![f.entry])
    &&& ops_ok(f, seq![f.entry], 0)
}

/// The text of a function's body: the frame base is set, the entry block is
/// written, and a return without a value closes it.
pub open spec fn func_text(f: FuncView) -> Seq<char> {
    let stack = seq![f.entry];
    instruction_text(
        "mov"@,
        operands_text(f, Seq::empty(), Location::Register(Reg::RBP), Location::Register(Reg::RSP)),
    ) + block_text(f, stack) + ret_text(f, stack, None) + exit_text(f, stack, 1)
}

/// The line that makes a name visible to the linker.
pub open spec fn global_text(name: Seq<char>) -> Seq<char> {
    indent() + "global "@ + name + "\n"@
}

/// The directives in front of the code: one `global` line for each public
/// function, in order.
pub open spec fn globals_text(funcs: Seq<FuncView>) -> Seq<char>
    decreases funcs.len(),
{
    if funcs.len() == 0 {
        Seq::empty()
    } else {
        globals_text(funcs.drop_last()) + (if funcs.last().public {
            global_text(funcs.last().name)
        } else {
            Seq::empty()
        })
    }
}

/// The line that opens the code section.
pub open spec fn section_text() -> Seq<char> {
    indent() + "section .text\n"@
}

/// The definitions: for each function, in order, its label and its body.
pub open spec fn bodies_text(funcs: Seq<FuncView>) -> Seq<char>
    decreases funcs.len(),
{
    if funcs.len() == 0 {
        Seq::empty()
    } else {
        bodies_text(funcs.drop_last()) + label_text(funcs.last().name) + func_text(funcs.last())
    }
}

/// The whole assembly text of a list of functions.
pub open spec fn unit_text(funcs: Seq<FuncView>) -> Seq<char> {
    globals_text(funcs) + section_text() + bodies_text(funcs)
}

/// The views of a list of functions.
pub open spec fn func_views(funcs: Seq<Func>) -> Seq<FuncView> {
    funcs.map_values(|f: Func| f@)
}

pub proof fn lemma_stack_girth_nonnegative(f: FuncView, stack: Seq<BlockRef>)
    ensures
        0 <= stack_girth(f, stack),
    decreases stack.len(),
{
    if stack.len() > 0 {
        lemma_stack_girth_nonnegative(f, stack.drop_last());
        lemma_locals_size_nonnegative(f.block(stack.last()).locals);
    }
}

/// The girth of the first `k + 1` blocks of a stack is that of the first `k`
/// and of the one on top of them.
pub proof fn lemma_stack_girth_step(f: FuncView, stack: Seq<BlockRef>, k: int)
    requires
        0 <= k < stack.len(),
    ensures
        stack_girth(f, stack.take(k + 1)) == stack_girth(f, stack.take(k)) + f.block(
            stack[k],
        ).girth(),
        0 <= f.block(stack[k]).girth(),
{
    assert(stack.take(k + 1).drop_last() =~= stack.take(k));
    lemma_locals_size_nonnegative(f.block(stack[k]).locals);
}

/// The blocks at the bottom of a stack take no more room than all of them.
pub proof fn lemma_stack_girth_bounds(f: FuncView, stack: Seq<BlockRef>, k: int)
    requires
        0 <= k <= stack.len(),
    ensures
        0 <= stack_girth(f, stack.take(k)) <= stack_girth(f, stack),
    decreases stack.len() - k,
{
    lemma_stack_girth_nonnegative(f, stack.take(k));
    if k == stack.len() {
        assert(stack.take(k) =~= stack);
    } else {
        lemma_stack_girth_bounds(f, stack, k + 1);
        lemma_stack_girth_step(f, stack, k);
    }
}

/// A block on the stack, with everything under it, takes no more room than
/// the whole stack.
pub proof fn lemma_girth_below(f: FuncView, stack: Seq<BlockRef>, b: BlockRef)
    requires
        stack.contains(b),
    ensures
        0 <= girth_below(f, stack, b),
        girth_below(f, stack, b) + f.block(b).girth() <= stack_girth(f, stack),
    decreases stack.len(),
{
    lemma_stack_girth_nonnegative(f, stack.drop_last());
    lemma_locals_size_nonnegative(f.block(stack.last()).locals);
    if stack.last() != b {
        let i = choose|i: int| 0 <= i < stack.len() && stack[i] == b;
        assert(stack.drop_last()[i] == b);
        lemma_girth_below(f, stack.drop_last(), b);
    }
}

/// A local that can be written lies inside the room of the stack.
pub proof fn lemma_offset_bounds(f: FuncView, stack: Seq<BlockRef>, l: LocalRef)
    requires
        stack.contains(l.0),
        f.has_local(l),
    ensures
        0 <= girth_below(f, stack, l.0),
        forall|k: int|
            0 <= k <= f.block(l.0).locals.len() ==> 0 <= #[trigger] locals_size(
                f.block(l.0).locals.take(k),
            ) && girth_below(f, stack, l.0) + locals_size(f.block(l.0).locals.take(k))
                <= stack_girth(f, stack),
        0 <= offset(f, stack, l) <= stack_girth(f, stack),
{
    lemma_girth_below(f, stack, l.0);
    assert forall|k: int| 0 <= k <= f.block(l.0).locals.len() implies 0 <= #[trigger] locals_size(
        f.block(l.0).locals.take(k),
    ) && girth_below(f, stack, l.0) + locals_size(f.block(l.0).locals.take(k)) <= stack_girth(
        f,
        stack,
    ) by {
        lemma_locals_size_bounds(f.block(l.0).locals, k);
    }
}

/// The emitter's state: the function it writes, the blocks it is inside of,
/// and the text written so far.
pub struct Stack<'a> {
    pub f: &'a Func,
    pub blocks: Vec<BlockRef>,
    pub out: String,
}

impl<'a> Stack<'a> {
    pub open spec fn wf(&self) -> bool {
        active(self.f@, self.blocks@)
    }

    /// The state before anything is written: no block is entered.
    pub fn new(f: &'a Func) -> (st: Self)
        ensures
            st.f == f,
            st.blocks@ == Seq::<BlockRef>::empty(),
            st.out@ == Seq::<char>::empty(),
            st.wf(),
    {
        Stack { f, blocks: Vec::new(), out: String::new() }
    }

    /// The innermost of the blocks that are entered.
    pub fn top(&self) -> (b: BlockRef)
        requires
            self.blocks@.len() > 0,
        ensures
            b == self.blocks@.last(),
    {
        self.blocks[self.blocks.len() - 1]
    }

    /// Enters block `b`.
    pub fn push(&mut self, b: BlockRef)
        requires
            old(self).wf(),
            old(self).f@.has_block(b),
            stack_girth(old(self).f@, old(self).blocks@.push(b)) <= i64::MAX,
        ensures
            final(self).f == old(self).f,
            final(self).out == old(self).out,
            final(self).blocks@ == old(self).blocks@.push(b),
            final(self).wf(),
    {
        self.blocks.push(b);
    }

    /// Leaves the innermost block: the room of its locals is given back.
    pub fn pop(&mut self)
        requires
            old(self).wf(),
            old(self).blocks@.len() > 0,
        ensures
            final(self).f == old(self).f,
            final(self).out@ == old(self).out@ + exit_text(old(self).f@, old(self).blocks@, 1),
            final(self).blocks@ == old(self).blocks@.drop_last(),
            final(self).wf(),
    {
        self.exit_n_blocks(1);
        self.blocks.pop();
        proof {
            lemma_stack_girth_bounds(self.f@, old(self).blocks@, old(self).blocks@.len() - 1);
        }
    }

    /// How far below the frame base local `l` lies.
    pub fn offset(&self, l: LocalRef) -> (off: i64)
        requires
            self.wf(),
            loc_ok(self.f@, self.blocks@, Location::Local(l)),
        ensures
            off == offset(self.f@, self.blocks@, l),
            0 <= off,
    {
        let ghost f = self.f@;
        let ghost stack = self.blocks@;
        proof {
            lemma_offset_bounds(f, stack, l);
            assert(stack.take(stack.len() as int) =~= stack);
        }
        let mut pos: usize = self.blocks.len();
        while pos > 0 && !(self.blocks[pos - 1] == l.0)
            invariant
                pos <= stack.len(),
                stack == self.blocks@,
                stack.take(pos as int).contains(l.0),
                girth_below(f, stack, l.0) == girth_below(f, stack.take(pos as int), l.0),
            decreases pos,
        {
            proof {
                let s = stack.take(pos as int);
                assert(s.drop_last() =~= stack.take(pos - 1));
                let i = choose|i: int| 0 <= i < s.len() && s[i] == l.0;
                assert(stack.take(pos - 1)[i] == l.0);
            }
            pos = pos - 1;
        }
        proof {
            let s = stack.take(pos as int);
            if pos == 0 {
                let i = choose|i: int| 0 <= i < s.len() && s[i] == l.0;
                assert(false);
            }
            assert(s.drop_last() =~= stack.take(pos - 1));
            lemma_stack_girth_bounds(f, stack, pos - 1);
        }
        let under = pos - 1;
        let mut off: i64 = 0;
        let mut i: usize = 0;
        proof {
            assert(stack.take(0) =~= Seq::empty());
        }
        while i < under
            invariant
                i <= under < stack.len(),
                stack == self.blocks@,
                f == self.f@,
                self.wf(),
                off == stack_girth(f, stack.take(i as int)),
            decreases under - i,
        {
            proof {
                lemma_stack_girth_step(f, stack, i as int);
                lemma_stack_girth_bounds(f, stack, i as int);
                lemma_stack_girth_bounds(f, stack, i + 1);
            }
            let block = self.blocks[i].borrow(self.f);
            off = off + block.locals_girth(self.f);
            i = i + 1;
        }
        let block = l.0.borrow(self.f);
        let count = block.locals.len();
        let mut k: usize = 0;
        proof {
            assert(block@.locals.take(0) =~= Seq::empty());
        }
        while k <= l.1
            invariant
                k <= l.1 + 1 <= block.locals@.len() == count,
                block@ == f.block(l.0),
                block@.locals.len() == block.locals@.len(),
                off == girth_below(f, stack, l.0) + locals_size(block@.locals.take(k as int)),
                0 <= girth_below(f, stack, l.0),
                stack_girth(f, stack) <= i64::MAX,
                forall|k: int|
                    0 <= k <= f.block(l.0).locals.len() ==> 0 <= #[trigger] locals_size(
                        f.block(l.0).locals.take(k),
                    ) && girth_below(f, stack, l.0) + locals_size(f.block(l.0).locals.take(k))
                        <= stack_girth(f, stack),
            decreases l.1 + 1 - k,
        {
            proof {
                lemma_locals_size_step(block@.locals, k as int);
                assert(0 <= locals_size(f.block(l.0).locals.take(k as int)));
                assert(0 <= locals_size(f.block(l.0).locals.take(k + 1)));
            }
            off = off + block.locals[k].typ.byte_width(self.f);
            k = k + 1;
        }
        off
    }

    /// Gives back the room of every block that is entered, as a return does.
    pub fn exit_all_blocks(&mut self)
        requires
            old(self).wf(),
        ensures
            final(self).f == old(self).f,
            final(self).blocks == old(self).blocks,
            final(self).out@ == old(self).out@ + exit_text(
                old(self).f@,
                old(self).blocks@,
                old(self).blocks@.len(),
            ),
    {
        let n = self.blocks.len();
        self.exit_n_blocks(n)
    }

    /// Gives back the room of the `n` innermost blocks. The blocks stay
    /// entered.
    pub fn exit_n_blocks(&mut self, n: usize)
        requires
            old(self).wf(),
            n <= old(self).blocks@.len(),
        ensures
            final(self).f == old(self).f,
            final(self).blocks == old(self).blocks,
            final(self).out@ == old(self).out@ + exit_text(
                old(self).f@,
                old(self).blocks@,
                n as nat,
            ),
    {
        let ghost f = self.f@;
        let ghost stack = self.blocks@;
        let len = self.blocks.len();
        let start = len - n;
        let mut dealloc_size: i64 = 0;
        let mut i: usize = start;
        proof {
            lemma_stack_girth_bounds(f, stack, start as int);
        }
        while i < len
            invariant
                start <= i <= len,
                len == stack.len(),
                stack == self.blocks@,
                f == self.f@,
                self.wf(),
                dealloc_size == stack_girth(f, stack.take(i as int)) - stack_girth(
                    f,
                    stack.take(start as int),
                ),
                0 <= stack_girth(f, stack.take(start as int)),
                0 <= dealloc_size,
            decreases len - i,
        {
            proof {
                lemma_stack_girth_step(f, stack, i as int);
                lemma_stack_girth_bounds(f, stack, i as int);
                lemma_stack_girth_bounds(f, stack, i + 1);
            }
            let block = self.blocks[i].borrow(self.f);
            dealloc_size = dealloc_size + block.locals_girth(self.f);
            i = i + 1;
        }
        proof {
            assert(stack.take(len as int) =~= stack);
        }
        self.out.append("            ");
        self.out.append("; ");
        self.out.append("exiting ");
        push_nat(&mut self.out, n as u64);
        self.out.append(" ");
        if n == 1 {
            self.out.append("block");
        } else {
            self.out.append("blocks");
        }
        self.out.append("\n");
        adjust(self, "add", dealloc_size);
    }
}

/// Writes one comment line.
pub fn comment(st: &mut Stack, text: &str)
    ensures
        final(st).f == old(st).f,
        final(st).blocks == old(st).blocks,
        final(st).out@ == old(st).out@ + comment_text(text@),
{
    st.out.append("            ");
    st.out.append("; ");
    st.out.append(text);
    st.out.append("\n");
}

/// Writes the front of an instruction line: the mnemonic in its column.
pub fn instruction(st: &mut Stack, name: &str)
    ensures
        final(st).f == old(st).f,
        final(st).blocks == old(st).blocks,
        final(st).out@ == old(st).out@ + indent() + left_justified(name@, 10),
{
    st.out.append("            ");
    push_left_justified(&mut st.out, name, 10);
}

fn adjust(st: &mut Stack, name: &str, amount: i64)
    ensures
        final(st).f == old(st).f,
        final(st).blocks == old(st).blocks,
        final(st).out@ == old(st).out@ + adjust_text(name@, amount as int),
{
    instruction(st, name);
    Reg::RSP.write_nasm_name(&mut st.out);
    st.out.append(", ");
    push_int(&mut st.out, amount);
    st.out.append("\n");
}

/// Writes the size keyword of a memory operand.
pub fn emit_opsize(st: &mut Stack, loc: &Location)
    requires
        loc.measurable(old(st).f@),
    ensures
        final(st).f == old(st).f,
        final(st).blocks == old(st).blocks,
        final(st).out@ == old(st).out@ + opsize_text(old(st).f@, *loc),
{
    if loc.is_displaced() {
        let op_size = byte_width_to_opsize(loc.byte_width(st.f));
        st.out.append(op_size);
        st.out.append(" ");
    }
}

fn emit_displaced(st: &mut Stack, register: Reg, displacement: i64)
    ensures
        final(st).f == old(st).f,
        final(st).blocks == old(st).blocks,
        final(st).out@ == old(st).out@ + displaced_text(register, displacement as int),
{
    st.out.append("[");
    register.write_nasm_name(&mut st.out);
    if displacement > 0 {
        st.out.append("+");
        push_int(&mut st.out, displacement);
    } else if displacement < 0 {
        push_int(&mut st.out, displacement);
    }
    st.out.append("]");
}

/// Writes an operand.
pub fn emit_location(st: &mut Stack, loc: &Location)
    requires
        old(st).wf(),
        loc_ok(old(st).f@, old(st).blocks@, *loc),
    ensures
        final(st).f == old(st).f,
        final(st).blocks == old(st).blocks,
        final(st).out@ == old(st).out@ + location_text(old(st).f@, old(st).blocks@, *loc),
{
    match loc {
        Location::Register(r) => {
            r.write_nasm_name(&mut st.out);
        },
        Location::Local(l) => {
            let off = st.offset(*l);
            emit_displaced(st, Reg::RBP, -off);
        },
        Location::Displaced(d) => {
            emit_displaced(st, d.register, d.displacement);
        },
        Location::Imm64(v) => {
            push_int(&mut st.out, *v);
        },
    }
}

fn emit_two(st: &mut Stack, name: &str, lhs: &Location, rhs: &Location)
    requires
        old(st).wf(),
        loc_ok(old(st).f@, old(st).blocks@, *lhs),
        loc_ok(old(st).f@, old(st).blocks@, *rhs),
    ensures
        final(st).f == old(st).f,
        final(st).blocks == old(st).blocks,
        final(st).out@ == old(st).out@ + instruction_text(
            name@,
            operands_text(old(st).f@, old(st).blocks@, *lhs, *rhs),
        ),
{
    instruction(st, name);
    emit_opsize(st, lhs);
    emit_location(st, lhs);
    st.out.append(", ");
    emit_location(st, rhs);
    st.out.append("\n");
}

fn emit_jump(st: &mut Stack, name: &str, target: LabelRef)
    requires
        old(st).f@.has_label(target),
    ensures
        final(st).f == old(st).f,
        final(st).blocks == old(st).blocks,
        final(st).out@ == old(st).out@ + instruction_text(name@, old(st).f@.label(target)),
{
    instruction(st, name);
    let l = target.borrow(st.f);
    st.out.append(l.name.as_str());
    st.out.append("\n");
}

fn emit_ret(st: &mut Stack, value: &Option<Location>)
    requires
        old(st).wf(),
        *value matches Some(loc) ==> loc_ok(old(st).f@, old(st).blocks@, loc),
    ensures
        final(st).f == old(st).f,
        final(st).blocks == old(st).blocks,
        final(st).out@ == old(st).out@ + ret_text(old(st).f@, old(st).blocks@, *value),
{
    if let Some(o) = value {
        let rax = Location::Register(Reg::RAX);
        emit_two(st, "mov", &rax, o);
    }
    st.exit_all_blocks();
    instruction(st, "ret");
    st.out.append("0");
    st.out.append("\n");
}

/// Writes an operation other than a nested block; for a nested block,
/// nothing.
pub fn emit_simple_op(st: &mut Stack, op: &Op)
    requires
        old(st).wf(),
        simple_op_ok(old(st).f@, old(st).blocks@, op@),
    ensures
        final(st).f == old(st).f,
        final(st).blocks == old(st).blocks,
        final(st).out@ == old(st).out@ + simple_op_text(old(st).f@, old(st).blocks@, op@),
{
    match op {
        Op::Xor(o) => emit_two(st, "xor", &o.lhs, &o.rhs),
        Op::Add(o) => emit_two(st, "add", &o.lhs, &o.rhs),
        Op::Sub(o) => emit_two(st, "sub", &o.lhs, &o.rhs),
        Op::Mov(o) => emit_two(st, "mov", &o.dst, &o.src),
        Op::Cmp(o) => emit_two(st, "cmp", &o.lhs, &o.rhs),
        Op::Jg(o) => emit_jump(st, "jg", o.dst),
        Op::Jmp(o) => emit_jump(st, "jmp", o.dst),
        Op::Label(l) => {
            let label = l.borrow(st.f);
            st.out.append(label.name.as_str());
            st.out.append(":\n");
        },
        Op::Ret(value) => emit_ret(st, value),
        Op::Comment(c) => {
            match c {
                Some(s) => comment(st, s.as_str()),
                None => comment(st, ""),
            }
            proof {
                reveal_strlit("");
            }
        },
        Op::Block(_) => {
        },
    }
}

/// Writes one operation. A nested block is entered, written, and left; the
/// stack of blocks is afterwards what it was.
pub fn emit_op(st: &mut Stack, op: &Op)
    requires
        old(st).wf(),
        op_ok(old(st).f@, old(st).blocks@, op@),
    ensures
        final(st).f == old(st).f,
        final(st).blocks@ == old(st).blocks@,
        final(st).out@ == old(st).out@ + op_text(old(st).f@, old(st).blocks@, op@),
        final(st).wf(),
    decreases headroom(old(st).f@, old(st).blocks@), 0int,
{
    match op {
        Op::Block(b) => {
            st.push(*b);
            emit_block(st, *b);
            st.pop();
        },
        _ => {
            emit_simple_op(st, op);
        },
    }
}

/// Writes the innermost block that is entered: its prologue, then its
/// operations in order.
pub fn emit_block(st: &mut Stack, block: BlockRef)
    requires
        old(st).wf(),
        old(st).blocks@.len() > 0,
        old(st).blocks@.last() == block,
        ops_ok(old(st).f@, old(st).blocks@, 0),
    ensures
        final(st).f == old(st).f,
        final(st).blocks@ == old(st).blocks@,
        final(st).out@ == old(st).out@ + block_text(old(st).f@, old(st).blocks@),
        final(st).wf(),
    decreases headroom(old(st).f@, old(st).blocks@), 1int,
{
    let ghost f = st.f@;
    let ghost stack = st.blocks@;
    let func: &Func = st.f;
    let b = block.borrow(func);
    proof {
        lemma_stack_girth_bounds(f, stack, stack.len() - 1);
    }
    comment(st, "block prologue start");
    let girth = b.locals_girth(func);
    adjust(st, "sub", girth);
    let mut i: usize = 0;
    while i < b.ops.len()
        invariant
            i <= b.ops@.len(),
            b@ == f.block(block),
            b@.ops.len() == b.ops@.len(),
            stack.len() > 0,
            stack.last() == block,
            st.f == old(st).f,
            func == st.f,
            f == func@,
            st.blocks@ == stack,
            st.wf(),
            ops_ok(f, stack, i as int),
            st.out@ + ops_text(f, stack, i as int) == old(st).out@ + block_text(f, stack),
            headroom(f, stack) == headroom(old(st).f@, old(st).blocks@),
        decreases b.ops@.len() - i,
    {
        emit_op(st, &b.ops[i]);
        i = i + 1;
    }
}

/// Writes the body of a function.
pub fn emit_func(out: &mut String, f: &Func)
    requires
        emittable(f@),
    ensures
        final(out)@ == old(out)@ + func_text(f@),
{
    let entry = f.entry;
    let mut st = Stack::new(f);
    let rbp = Location::Register(Reg::RBP);
    let rsp = Location::Register(Reg::RSP);
    emit_two(&mut st, "mov", &rbp, &rsp);
    st.push(entry);
    emit_block(&mut st, entry);
    emit_ret(&mut st, &None);
    st.pop();
    out.append(st.out.as_str());
}

/// Writes a list of functions: the `global` directives of the public ones,
/// the section directive, then each function's label and body.
pub fn emit_all(funcs: &Vec<Func>) -> (out: String)
    requires
        forall|i: int| 0 <= i < funcs@.len() ==> emittable(#[trigger] funcs@[i]@),
    ensures
        out@ == unit_text(func_views(funcs@)),
{
    let ghost views = func_views(funcs@);
    let mut out = String::new();
    let mut i: usize = 0;
    while i < funcs.len()
        invariant
            i <= funcs@.len(),
            views == func_views(funcs@),
            out@ == globals_text(views.take(i as int)),
        decreases funcs@.len() - i,
    {
        proof {
            assert(views.take(i + 1).drop_last() =~= views.take(i as int));
        }
        let f = &funcs[i];
        if f.public {
            out.append("            ");
            out.append("global ");
            out.append(f.name.as_str());
            out.append("\n");
        }
        i = i + 1;
    }
    proof {
        assert(views.take(i as int) =~= views);
    }
    out.append("            ");
    out.append("section .text\n");
    let mut i: usize = 0;
    while i < funcs.len()
        invariant
            i <= funcs@.len(),
            views == func_views(funcs@),
            forall|i: int| 0 <= i < funcs@.len() ==> emittable(#[trigger] funcs@[i]@),
            out@ == globals_text(views) + section_text() + bodies_text(views.take(i as int)),
        decreases funcs@.len() - i,
    {
        proof {
            assert(views.take(i + 1).drop_last() =~= views.take(i as int));
        }
        let f = &funcs[i];
        out.append(f.name.as_str());
        out.append(":\n");
        emit_func(&mut out, f);
        i = i + 1;
    }
    out
}

/// Of two locals declared one after the other in the same block, the later
/// lies below the earlier by its own size, whatever blocks are entered; and,
/// every type being as wide as every other, by the size of the earlier.
pub proof fn lemma_layout_is_contiguous(
    f: FuncView,
    stack: Seq<BlockRef>,
    earlier: LocalRef,
    later: LocalRef,
)
    requires
        f.has_local(later),
        later.0 == earlier.0,
        later.1 == earlier.1 + 1,
    ensures
        offset(f, stack, later) - offset(f, stack, earlier) == f.local(later).typ.size(),
        offset(f, stack, later) - offset(f, stack, earlier) == f.local(earlier).typ.size(),
        offset(f, stack, earlier) < offset(f, stack, later),
{
    lemma_locals_size_step(f.block(later.0).locals, later.1 as int);
}

/// A return gives back the room of every block that is entered: the sum of
/// the girths of them all, of which the girth of the innermost is but the
/// last term.
pub proof fn lemma_return_unwinds_every_block(
    f: FuncView,
    stack: Seq<BlockRef>,
    value: Option<Location>,
)
    ensures
        top_girth(f, stack, stack.len()) == stack_girth(f, stack),
        exit_text(f, stack, stack.len()) == comment_text(
            "exiting "@ + nat_text(stack.len()) + " "@ + (if stack.len() == 1 {
                "block"@
            } else {
                "blocks"@
            }),
        ) + adjust_text("add"@, stack_girth(f, stack)),
        ret_text(f, stack, value) == (match value {
            Some(loc) => instruction_text("mov"@, operands_text(f, stack, scratch(), loc)),
            None => Seq::empty(),
        }) + exit_text(f, stack, stack.len()) + instruction_text("ret"@, "0"@),
        stack.len() > 0 ==> stack_girth(f, stack) == stack_girth(f, stack.drop_last()) + f.block(
            stack.last(),
        ).girth(),
        stack.len() > 0 ==> stack_girth(f, stack) >= f.block(stack.last()).girth(),
{
    lemma_stack_girth_nonnegative(f, stack.drop_last());
}

/// The `global` directives, one line each.
pub open spec fn global_lines(funcs: Seq<FuncView>) -> Seq<Seq<char>>
    decreases funcs.len(),
{
    if funcs.len() == 0 {
        Seq::empty()
    } else if funcs.last().public {
        global_lines(funcs.drop_last()).push(global_text(funcs.last().name))
    } else {
        global_lines(funcs.drop_last())
    }
}

/// The lines that define the labels of the functions, one for each
/// function.
pub open spec fn definition_lines(funcs: Seq<FuncView>) -> Seq<Seq<char>> {
    Seq::new(funcs.len(), |i: int| label_text(funcs[i].name))
}

/// The lines of a list, one after the other.
pub open spec fn joined(lines: Seq<Seq<char>>) -> Seq<char>
    decreases lines.len(),
{
    if lines.len() == 0 {
        Seq::empty()
    } else {
        joined(lines.drop_last()) + lines.last()
    }
}

/// How often a line occurs in a list.
pub open spec fn occurrences(lines: Seq<Seq<char>>, line: Seq<char>) -> nat
    decreases lines.len(),
{
    if lines.len() == 0 {
        0
    } else {
        occurrences(lines.drop_last(), line) + if lines.last() == line {
            1nat
        } else {
            0nat
        }
    }
}

/// How many functions of a list, or how many public ones, have a name.
pub open spec fn functions_named(funcs: Seq<FuncView>, name: Seq<char>, public_only: bool) -> nat
    decreases funcs.len(),
{
    if funcs.len() == 0 {
        0
    } else {
        functions_named(funcs.drop_last(), name, public_only) + if funcs.last().name == name && (
        funcs.last().public || !public_only) {
            1nat
        } else {
            0nat
        }
    }
}

/// Different names give different `global` directives and different label
/// definitions.
pub proof fn lemma_lines_tell_names_apart(a: Seq<char>, b: Seq<char>)
    requires
        a != b,
    ensures
        global_text(a) != global_text(b),
        label_text(a) != label_text(b),
{
    let p = indent() + "global "@;
    let q = "\n"@;
    if global_text(a) == global_text(b) {
        assert((p + a + q).subrange(p.len() as int, (p.len() + a.len()) as int) =~= a);
        assert((p + b + q).subrange(p.len() as int, (p.len() + b.len()) as int) =~= b);
    }
    let r = ":\n"@;
    if label_text(a) == label_text(b) {
        assert((a + r).subrange(0, a.len() as int) =~= a);
        assert((b + r).subrange(0, b.len() as int) =~= b);
    }
}

/// The text in front of the code section is the `global` directives and
/// nothing else; the directive of a name stands there once for each public
/// function of that name, and the definition of a name's label once for
/// each function of that name.
pub proof fn lemma_directives_and_definitions(funcs: Seq<FuncView>, name: Seq<char>)
    ensures
        globals_text(funcs) == joined(global_lines(funcs)),
        occurrences(global_lines(funcs), global_text(name)) == functions_named(funcs, name, true),
        occurrences(definition_lines(funcs), label_text(name)) == functions_named(
            funcs,
            name,
            false,
        ),
    decreases funcs.len(),
{
    if funcs.len() > 0 {
        let front = funcs.drop_last();
        let last = funcs.last();
        lemma_directives_and_definitions(front, name);
        if last.name != name {
            lemma_lines_tell_names_apart(last.name, name);
        }
        if last.public {
            assert(global_lines(funcs).drop_last() =~= global_lines(front));
        }
        assert(definition_lines(funcs).drop_last() =~= definition_lines(front));
    }
}

/// Among functions of different names, a public function has exactly one
/// `global` directive and a private one has none, and each has exactly one
/// definition of its label.
pub proof fn lemma_one_directive_one_definition(funcs: Seq<FuncView>, i: int)
    requires
        0 <= i < funcs.len(),
        forall|j: int| 0 <= j < funcs.len() && j != i ==> (#[trigger] funcs[j]).name != funcs[i].name,
    ensures
        occurrences(global_lines(funcs), global_text(funcs[i].name)) == (if funcs[i].public {
            1nat
        } else {
            0nat
        }),
        occurrences(definition_lines(funcs), label_text(funcs[i].name)) == 1,
        unit_text(funcs) == joined(global_lines(funcs)) + section_text() + bodies_text(funcs),
{
    let name = funcs[i].name;
    lemma_directives_and_definitions(funcs, name);
    lemma_count_of_a_unique_name(funcs, i, funcs.len() as int);
    assert(funcs.take(funcs.len() as int) =~= funcs);
}

proof fn lemma_count_of_a_unique_name(funcs: Seq<FuncView>, i: int, k: int)
    requires
        0 <= i < funcs.len(),
        0 <= k <= funcs.len(),
        forall|j: int| 0 <= j < funcs.len() && j != i ==> (#[trigger] funcs[j]).name != funcs[i].name,
    ensures
        functions_named(funcs.take(k), funcs[i].name, false) == (if i < k {
            1nat
        } else {
            0nat
        }),
        functions_named(funcs.take(k), funcs[i].name, true) == (if i < k && funcs[i].public {
            1nat
        } else {
            0nat
        }),
    decreases k,
{
    if k > 0 {
        lemma_count_of_a_unique_name(funcs, i, k - 1);
        assert(funcs.take(k).drop_last() =~= funcs.take(k - 1));
    }
}

} // verus!

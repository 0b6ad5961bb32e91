//! The intermediate representation: functions that own their blocks, blocks
//! that own their locals, labels and operations, and index-based handles that
//! tie them together.

use crate::text::{lemma_nat_text_injective, nat_text, push_nat};
use vstd::prelude::*;

pub mod emit;
pub mod nesting;
pub mod validate;

verus! {

/// Handle of a block: its index in the function that owns it.
#[derive(Debug, Clone, Copy, PartialEq, Eq, Structural)]
pub struct BlockRef(pub usize);

/// Handle of a label: the block it was minted in, and its index there.
#[derive(Debug, Clone, Copy, PartialEq, Eq, Structural)]
pub struct LabelRef(pub BlockRef, pub usize);

/// Handle of a local: the block it was declared in, and its index there.
#[derive(Debug, Clone, Copy, PartialEq, Eq, Structural)]
pub struct LocalRef(pub BlockRef, pub usize);

/// The type of a stack slot.
#[derive(Debug, Clone, Copy, PartialEq, Eq, Structural)]
pub enum Type {
    I64,
}

impl Type {
    /// The size of a value of this type, in bytes.
    pub open spec fn size(self) -> int {
        match self {
            Type::I64 => 8,
        }
    }
}

/// The general-purpose registers of the target.
#[derive(Debug, Clone, Copy, PartialEq, Eq, Structural)]
pub enum Reg {
    RAX,
    RBX,
    RCX,
    RDX,
    RSI,
    RDI,
    RBP,
    RSP,
    R8,
    R9,
    R10,
    R11,
    R12,
    R13,
    R14,
    R15,
}

/// A memory operand: a register plus a constant.
#[derive(Debug, Clone, Copy, PartialEq, Eq, Structural)]
pub struct Displaced {
    pub register: Reg,
    pub displacement: i64,
}

/// An operand of an operation.
#[derive(Debug, Clone, Copy, PartialEq, Eq, Structural)]
pub enum Location {
    Displaced(Displaced),
    Register(Reg),
    Local(LocalRef),
    Imm64(i64),
}

#[derive(Debug, Clone, Copy, PartialEq, Eq, Structural)]
pub struct Xor {
    pub lhs: Location,
    pub rhs: Location,
}

#[derive(Debug, Clone, Copy, PartialEq, Eq, Structural)]
pub struct Mov {
    pub dst: Location,
    pub src: Location,
}

#[derive(Debug, Clone, Copy, PartialEq, Eq, Structural)]
pub struct Add {
    pub lhs: Location,
    pub rhs: Location,
}

#[derive(Debug, Clone, Copy, PartialEq, Eq, Structural)]
pub struct Sub {
    pub lhs: Location,
    pub rhs: Location,
}

#[derive(Debug, Clone, Copy, PartialEq, Eq, Structural)]
pub struct Cmp {
    pub lhs: Location,
    pub rhs: Location,
}

#[derive(Debug, Clone, Copy, PartialEq, Eq, Structural)]
pub struct Jg {
    pub dst: LabelRef,
}

#[derive(Debug, Clone, Copy, PartialEq, Eq, Structural)]
pub struct Jmp {
    pub dst: LabelRef,
}

/// One operation of a block.
#[derive(Debug)]
pub enum Op {
    Xor(Xor),
    Mov(Mov),
    Add(Add),
    Cmp(Cmp),
    Sub(Sub),
    Jg(Jg),
    Jmp(Jmp),
    Label(LabelRef),
    Block(BlockRef),
    Ret(Option<Location>),
    Comment(Option<String>),
}

/// What an operation says, with the text of a comment as a sequence of
/// characters.
pub enum OpView {
    Xor(Xor),
    Mov(Mov),
    Add(Add),
    Cmp(Cmp),
    Sub(Sub),
    Jg(Jg),
    Jmp(Jmp),
    Label(LabelRef),
    Block(BlockRef),
    Ret(Option<Location>),
    Comment(Option<Seq<char>>),
}

impl View for Op {
    type V = OpView;

    open spec fn view(&self) -> OpView {
        match *self {
            Op::Xor(o) => OpView::Xor(o),
            Op::Mov(o) => OpView::Mov(o),
            Op::Add(o) => OpView::Add(o),
            Op::Cmp(o) => OpView::Cmp(o),
            Op::Sub(o) => OpView::Sub(o),
            Op::Jg(o) => OpView::Jg(o),
            Op::Jmp(o) => OpView::Jmp(o),
            Op::Label(l) => OpView::Label(l),
            Op::Block(b) => OpView::Block(b),
            Op::Ret(l) => OpView::Ret(l),
            Op::Comment(c) => OpView::Comment(
                match c {
                    Some(s) => Some(s@),
                    None => None,
                },
            ),
        }
    }
}

/// A named stack slot.
#[derive(Debug)]
pub struct Local {
    pub name: String,
    pub typ: Type,
}

pub struct LocalView {
    pub name: Seq<char>,
    pub typ: Type,
}

impl View for Local {
    type V = LocalView;

    open spec fn view(&self) -> LocalView {
        LocalView { name: self.name@, typ: self.typ }
    }
}

/// A symbolic jump target.
#[derive(Debug)]
pub struct Label {
    pub name: String,
}

impl View for Label {
    type V = Seq<char>;

    open spec fn view(&self) -> Seq<char> {
        self.name@
    }
}

/// A lexical region of a function.
#[derive(Debug)]
pub struct Block {
    pub own_ref: BlockRef,
    pub locals: Vec<Local>,
    pub labels: Vec<Label>,
    pub ops: Vec<Op>,
}

#[verifier::ext_equal]
pub struct BlockView {
    pub own_ref: BlockRef,
    pub locals: Seq<LocalView>,
    pub labels: Seq<Seq<char>>,
    pub ops: Seq<OpView>,
}

impl View for Block {
    type V = BlockView;

    open spec fn view(&self) -> BlockView {
        BlockView {
            own_ref: self.own_ref,
            locals: self.locals@.map_values(|l: Local| l@),
            labels: self.labels@.map_values(|l: Label| l@),
            ops: self.ops@.map_values(|o: Op| o@),
        }
    }
}

/// One subroutine: the arena of its blocks.
#[derive(Debug)]
pub struct Func {
    pub public: bool,
    pub name: String,
    pub entry: BlockRef,
    pub blocks: Vec<Block>,
}

#[verifier::ext_equal]
pub struct FuncView {
    pub public: bool,
    pub name: Seq<char>,
    pub entry: BlockRef,
    pub blocks: Seq<BlockView>,
}

impl View for Func {
    type V = FuncView;

    open spec fn view(&self) -> FuncView {
        FuncView {
            public: self.public,
            name: self.name@,
            entry: self.entry,
            blocks: self.blocks@.map_values(|b: Block| b@),
        }
    }
}

/// The total size of a run of locals, in bytes.
pub open spec fn locals_size(locals: Seq<LocalView>) -> int
    decreases locals.len(),
{
    if locals.len() == 0 {
        0
    } else {
        locals_size(locals.drop_last()) + locals.last().typ.size()
    }
}

impl BlockView {
    /// A block without locals, labels or operations.
    pub open spec fn empty(own_ref: BlockRef) -> BlockView {
        BlockView { own_ref, locals: Seq::empty(), labels: Seq::empty(), ops: Seq::empty() }
    }

    /// The girth of the block: the total size of the locals declared in it.
    pub open spec fn girth(self) -> int {
        locals_size(self.locals)
    }

    pub open spec fn with_local(self, local: LocalView) -> BlockView {
        BlockView { locals: self.locals.push(local), ..self }
    }

    pub open spec fn with_label(self, name: Seq<char>) -> BlockView {
        BlockView { labels: self.labels.push(name), ..self }
    }

    pub open spec fn with_ops(self, ops: Seq<OpView>) -> BlockView {
        BlockView { ops: self.ops + ops, ..self }
    }

    /// No operation of the block is an arithmetic operation on two memory
    /// operands.
    pub open spec fn encodable(self) -> bool {
        forall|i: int| 0 <= i < self.ops.len() ==> !dual_memory(#[trigger] self.ops[i])
    }
}

impl FuncView {
    /// A function of one empty block, its entry.
    pub open spec fn fresh(name: Seq<char>) -> FuncView {
        FuncView {
            public: false,
            name,
            entry: BlockRef(0),
            blocks: seq![BlockView::empty(BlockRef(0))],
        }
    }

    pub open spec fn has_block(self, b: BlockRef) -> bool {
        b.0 < self.blocks.len()
    }

    pub open spec fn has_label(self, l: LabelRef) -> bool {
        self.has_block(l.0) && l.1 < self.blocks[l.0.0 as int].labels.len()
    }

    pub open spec fn has_local(self, l: LocalRef) -> bool {
        self.has_block(l.0) && l.1 < self.blocks[l.0.0 as int].locals.len()
    }

    pub open spec fn block(self, b: BlockRef) -> BlockView {
        self.blocks[b.0 as int]
    }

    pub open spec fn label(self, l: LabelRef) -> Seq<char> {
        self.blocks[l.0.0 as int].labels[l.1 as int]
    }

    pub open spec fn local(self, l: LocalRef) -> LocalView {
        self.blocks[l.0.0 as int].locals[l.1 as int]
    }

    /// The function with block `b` replaced by `block`.
    pub open spec fn with_block(self, b: BlockRef, block: BlockView) -> FuncView {
        FuncView { blocks: self.blocks.update(b.0 as int, block), ..self }
    }

    /// The function with one more block, empty, at the end of the arena.
    pub open spec fn with_new_block(self) -> FuncView {
        FuncView {
            blocks: self.blocks.push(BlockView::empty(BlockRef(self.blocks.len() as usize))),
            ..self
        }
    }

    /// The handle that the next new block gets.
    pub open spec fn next_block(self) -> BlockRef {
        BlockRef(self.blocks.len() as usize)
    }

    /// No operation of the function has two memory operands: each can be
    /// encoded as it stands.
    pub open spec fn direct(self) -> bool {
        forall|b: int, k: int|
            0 <= b < self.blocks.len() && 0 <= k < self.blocks[b].ops.len() ==> !two_memory(
                #[trigger] self.blocks[b].ops[k],
            )
    }

    /// The arena is consistent: the entry exists, and every block knows its
    /// own handle.
    pub open spec fn wf(self) -> bool {
        &&& self.has_block(self.entry)
        &&& forall|i: int|
            0 <= i < self.blocks.len() ==> (#[trigger] self.blocks[i]).own_ref.0 == i
    }
}

/// A memory-class operand: one that is read from or written to memory.
pub open spec fn is_memory(l: Location) -> bool {
    l is Displaced || l is Local
}

/// The register that the legalizer uses as scratch space.
pub open spec fn scratch() -> Location {
    Location::Register(Reg::RAX)
}

/// The operand is addressed through the scratch register.
pub open spec fn based_on_scratch(l: Location) -> bool {
    l matches Location::Displaced(d) && d.register == Reg::RAX
}

/// The two operands of an arithmetic or logical operation, if `op` is one.
pub open spec fn arith_operands(op: OpView) -> Option<(Location, Location)> {
    match op {
        OpView::Xor(o) => Some((o.lhs, o.rhs)),
        OpView::Add(o) => Some((o.lhs, o.rhs)),
        OpView::Sub(o) => Some((o.lhs, o.rhs)),
        OpView::Cmp(o) => Some((o.lhs, o.rhs)),
        _ => None,
    }
}

/// The same arithmetic or logical operation on other operands.
pub open spec fn with_operands(op: OpView, lhs: Location, rhs: Location) -> OpView {
    match op {
        OpView::Xor(_) => OpView::Xor(Xor { lhs, rhs }),
        OpView::Add(_) => OpView::Add(Add { lhs, rhs }),
        OpView::Sub(_) => OpView::Sub(Sub { lhs, rhs }),
        OpView::Cmp(_) => OpView::Cmp(Cmp { lhs, rhs }),
        _ => op,
    }
}

/// An arithmetic or logical operation whose two operands are both in memory:
/// the target has no encoding for it.
pub open spec fn dual_memory(op: OpView) -> bool {
    arith_operands(op) matches Some((lhs, rhs)) && is_memory(lhs) && is_memory(rhs)
}

/// An operation that reads one memory operand and writes another: the
/// target has no encoding for it, be it a move or arithmetic.
pub open spec fn two_memory(op: OpView) -> bool {
    dual_memory(op) || (op matches OpView::Mov(m) && is_memory(m.dst) && is_memory(m.src))
}

/// What a block accepts: a dual-memory operation must not address either of
/// its operands through the scratch register, which the rewrite overwrites.
pub open spec fn legalizable(op: OpView) -> bool {
    arith_operands(op) matches Some((lhs, rhs)) ==> !(is_memory(lhs) && is_memory(rhs) && (
    based_on_scratch(lhs) || based_on_scratch(rhs)))
}

/// The operations that are stored for `op`: `op` itself, or, for a
/// dual-memory operation, the load of its left operand into the scratch
/// register, the operation on the scratch register, and the store back.
pub open spec fn legalize(op: OpView) -> Seq<OpView> {
    match arith_operands(op) {
        Some((lhs, rhs)) => if is_memory(lhs) && is_memory(rhs) {
            seq![
                OpView::Mov(Mov { dst: scratch(), src: lhs }),
                with_operands(op, scratch(), rhs),
                OpView::Mov(Mov { dst: lhs, src: scratch() }),
            ]
        } else {
            seq![op]
        },
        None => seq![op],
    }
}

/// A dual-memory operation is stored as exactly three operations: the load
/// of its left operand into the scratch register, the operation on the
/// scratch register, and the store back. None of the three has two memory
/// operands.
pub proof fn lemma_dual_memory_is_rewritten(op: OpView)
    requires
        dual_memory(op),
    ensures
        legalize(op).len() == 3,
        arith_operands(op) matches Some((lhs, rhs)) && {
            &&& legalize(op)[0] == OpView::Mov((Mov { dst: scratch(), src: lhs }))
            &&& legalize(op)[1] == with_operands(op, scratch(), rhs)
            &&& legalize(op)[2] == OpView::Mov((Mov { dst: lhs, src: scratch() }))
            &&& arith_operands(legalize(op)[1]) == Some((scratch(), rhs))
        },
        forall|i: int| 0 <= i < 3 ==> !dual_memory(#[trigger] legalize(op)[i]),
{
}

/// Whatever is stored for an operation, no arithmetic on two memory
/// operands is among it; and an operation that is no such arithmetic is
/// stored as it is.
pub proof fn lemma_legalize_is_encodable(op: OpView)
    ensures
        forall|i: int| 0 <= i < legalize(op).len() ==> !dual_memory(#[trigger] legalize(op)[i]),
        !dual_memory(op) ==> legalize(op) == seq![op],
{
}

/// The name of the `n`-th label.
pub open spec fn label_name(n: nat) -> Seq<char> {
    "label_"@ + nat_text(n)
}

/// Labels with different numbers have different names.
pub proof fn lemma_label_names_distinct(i: nat, j: nat)
    requires
        i != j,
    ensures
        label_name(i) != label_name(j),
{
    if label_name(i) == label_name(j) {
        let p = "label_"@;
        let a = nat_text(i);
        let b = nat_text(j);
        assert((p + a).subrange(p.len() as int, (p + a).len() as int) =~= a);
        assert((p + b).subrange(p.len() as int, (p + b).len() as int) =~= b);
        lemma_nat_text_injective(i, j);
    }
}

/// The number of the label of this name.
pub open spec fn label_number(name: Seq<char>) -> nat {
    choose|n: nat| label_name(n) == name
}

/// The number of the `n`-th label is `n`.
pub proof fn lemma_label_number(n: nat)
    ensures
        label_number(label_name(n)) == n,
{
    let k = label_number(label_name(n));
    if k != n {
        lemma_label_names_distinct(k, n);
    }
}

impl FuncView {
    /// Every label of the function was minted with a number from `lo` up
    /// to, but not including, `hi`, and no two of them with the same.
    pub open spec fn numbered(self, lo: nat, hi: nat) -> bool {
        &&& forall|l: LabelRef| #[trigger]
            self.has_label(l) ==> lo <= label_number(self.label(l)) < hi && self.label(l)
                == label_name(label_number(self.label(l)))
        &&& forall|a: LabelRef, b: LabelRef|
            #![trigger self.has_label(a), self.has_label(b)]
            self.has_label(a) && self.has_label(b) && a != b ==> label_number(self.label(a))
                != label_number(self.label(b))
    }

    /// The function has the labels of `earlier`, and no others.
    pub open spec fn same_labels(self, earlier: FuncView) -> bool {
        &&& forall|l: LabelRef| #[trigger] self.has_label(l) ==> earlier.has_label(l)
        &&& forall|l: LabelRef| #[trigger]
            earlier.has_label(l) ==> self.has_label(l) && self.label(l) == earlier.label(l)
    }
}

/// Two labels of a function whose labels are numbered have different
/// names.
pub proof fn lemma_numbered_labels_distinct(f: FuncView, lo: nat, hi: nat, a: LabelRef, b: LabelRef)
    requires
        f.numbered(lo, hi),
        f.has_label(a),
        f.has_label(b),
        a != b,
    ensures
        f.label(a) != f.label(b),
{
}

/// What is numbered within some bounds is numbered within wider ones.
pub proof fn lemma_numbered_wider(f: FuncView, lo: nat, hi: nat, lower: nat, higher: nat)
    requires
        f.numbered(lo, hi),
        lower <= lo,
        hi <= higher,
    ensures
        f.numbered(lower, higher),
{
}

/// A function with the labels of a numbered one is numbered.
pub proof fn lemma_same_labels_numbered(f: FuncView, g: FuncView, lo: nat, hi: nat)
    requires
        f.numbered(lo, hi),
        g.same_labels(f),
    ensures
        g.numbered(lo, hi),
{
    assert forall|l: LabelRef| #[trigger] g.has_label(l) implies lo <= label_number(g.label(l)) < hi
        && g.label(l) == label_name(label_number(g.label(l))) by {}
    assert forall|a: LabelRef, b: LabelRef|
        #![trigger g.has_label(a), g.has_label(b)]
        g.has_label(a) && g.has_label(b) && a != b implies label_number(g.label(a)) != label_number(
        g.label(b),
    ) by {}
}

/// A numbered function stays numbered when the label with the next number
/// is minted in one of its blocks.
pub proof fn lemma_mint_numbered(f: FuncView, b: BlockRef, lo: nat, n: nat)
    requires
        f.numbered(lo, n),
        lo <= n,
        f.has_block(b),
    ensures
        f.with_block(b, f.block(b).with_label(label_name(n))).numbered(lo, n + 1),
{
    let g = f.with_block(b, f.block(b).with_label(label_name(n)));
    let fresh = f.block(b).labels.len();
    lemma_label_number(n);
    assert forall|l: LabelRef| #[trigger] g.has_label(l) implies lo <= label_number(g.label(l)) < n
        + 1 && g.label(l) == label_name(label_number(g.label(l))) by {
        if !(l.0 == b && l.1 == fresh) {
            assert(f.has_label(l));
        }
    }
    assert forall|x: LabelRef, y: LabelRef|
        #![trigger g.has_label(x), g.has_label(y)]
        g.has_label(x) && g.has_label(y) && x != y implies label_number(g.label(x)) != label_number(
        g.label(y),
    ) by {
        let x_new = x.0 == b && x.1 == fresh;
        let y_new = y.0 == b && y.1 == fresh;
        if !x_new {
            assert(f.has_label(x));
        }
        if !y_new {
            assert(f.has_label(y));
        }
    }
}

/// The source of label names: a counter that only goes up.
#[derive(Debug)]
pub struct LabelGen {
    next: u64,
}

impl LabelGen {
    /// The number of the label that is minted next.
    pub closed spec fn upcoming(&self) -> nat {
        self.next as nat
    }

    /// A generator whose first label is `label_0`.
    pub fn new() -> (g: LabelGen)
        ensures
            g.upcoming() == 0,
    {
        LabelGen { next: 0 }
    }

    /// A generator whose first label has the number `first`.
    pub fn starting_at(first: u64) -> (g: LabelGen)
        ensures
            g.upcoming() == first,
    {
        LabelGen { next: first }
    }

    /// The number of the label that is minted next.
    pub fn peek(&self) -> (n: u64)
        ensures
            n == self.upcoming(),
    {
        self.next
    }

    /// How many labels can still be minted.
    pub fn remaining(&self) -> (n: u64)
        ensures
            n == u64::MAX - self.upcoming(),
    {
        u64::MAX - self.next
    }
}

impl Label {
    /// Mints the next label of `labels`.
    pub fn new(labels: &mut LabelGen) -> (l: Label)
        requires
            old(labels).upcoming() < u64::MAX,
        ensures
            l@ == label_name(old(labels).upcoming()),
            final(labels).upcoming() == old(labels).upcoming() + 1,
    {
        let mut name = "label_".to_owned();
        push_nat(&mut name, labels.next);
        labels.next = labels.next + 1;
        Label { name }
    }
}

/// Anything that names an operand: a location, a local, a register or an
/// immediate value.
pub trait ToLocation: Sized {
    /// The operand that `self` names.
    spec fn location(self) -> Location;

    fn to_location(self) -> (l: Location)
        ensures
            l == self.location(),
    ;
}

impl ToLocation for Location {
    open spec fn location(self) -> Location {
        self
    }

    fn to_location(self) -> (l: Location) {
        self
    }
}

impl ToLocation for LocalRef {
    open spec fn location(self) -> Location {
        Location::Local(self)
    }

    fn to_location(self) -> (l: Location) {
        Location::Local(self)
    }
}

impl ToLocation for Reg {
    open spec fn location(self) -> Location {
        Location::Register(self)
    }

    fn to_location(self) -> (l: Location) {
        Location::Register(self)
    }
}

impl ToLocation for i64 {
    open spec fn location(self) -> Location {
        Location::Imm64(self)
    }

    fn to_location(self) -> (l: Location) {
        Location::Imm64(self)
    }
}

impl From<LocalRef> for Location {
    fn from(l: LocalRef) -> (r: Location) {
        Location::Local(l)
    }
}

impl vstd::std_specs::convert::FromSpecImpl<LocalRef> for Location {
    open spec fn obeys_from_spec() -> bool {
        true
    }

    open spec fn from_spec(l: LocalRef) -> Location {
        Location::Local(l)
    }
}

impl From<Reg> for Location {
    fn from(r: Reg) -> (l: Location) {
        Location::Register(r)
    }
}

impl vstd::std_specs::convert::FromSpecImpl<Reg> for Location {
    open spec fn obeys_from_spec() -> bool {
        true
    }

    open spec fn from_spec(r: Reg) -> Location {
        Location::Register(r)
    }
}

impl From<i64> for Location {
    fn from(v: i64) -> (l: Location) {
        Location::Imm64(v)
    }
}

impl vstd::std_specs::convert::FromSpecImpl<i64> for Location {
    open spec fn obeys_from_spec() -> bool {
        true
    }

    open spec fn from_spec(v: i64) -> Location {
        Location::Imm64(v)
    }
}

impl Location {
    /// Whether the operand is in memory.
    pub fn is_displaced(self) -> (m: bool)
        ensures
            m == is_memory(self),
    {
        match self {
            Location::Displaced(_) => true,
            Location::Local(_) => true,
            _ => false,
        }
    }
}

impl Reg {
    /// The memory operand at `displacement` bytes from this register.
    pub fn displaced(self, displacement: i64) -> (l: Location)
        ensures
            l == Location::Displaced((Displaced { register: self, displacement })),
    {
        Location::Displaced(Displaced { register: self, displacement })
    }
}

/// Anything that stands for one operation.
pub trait Operand: Sized {
    /// The operation that `self` stands for.
    spec fn op_view(self) -> OpView;

    fn op(self) -> (o: Op)
        ensures
            o@ == self.op_view(),
    ;
}

impl Operand for Op {
    open spec fn op_view(self) -> OpView {
        self@
    }

    fn op(self) -> (o: Op) {
        self
    }
}

impl Operand for Xor {
    open spec fn op_view(self) -> OpView {
        OpView::Xor(self)
    }

    fn op(self) -> (o: Op) {
        Op::Xor(self)
    }
}

impl Operand for Mov {
    open spec fn op_view(self) -> OpView {
        OpView::Mov(self)
    }

    fn op(self) -> (o: Op) {
        Op::Mov(self)
    }
}

impl Operand for Add {
    open spec fn op_view(self) -> OpView {
        OpView::Add(self)
    }

    fn op(self) -> (o: Op) {
        Op::Add(self)
    }
}

impl Operand for Sub {
    open spec fn op_view(self) -> OpView {
        OpView::Sub(self)
    }

    fn op(self) -> (o: Op) {
        Op::Sub(self)
    }
}

impl Operand for Cmp {
    open spec fn op_view(self) -> OpView {
        OpView::Cmp(self)
    }

    fn op(self) -> (o: Op) {
        Op::Cmp(self)
    }
}

impl Operand for Jg {
    open spec fn op_view(self) -> OpView {
        OpView::Jg(self)
    }

    fn op(self) -> (o: Op) {
        Op::Jg(self)
    }
}

impl Operand for Jmp {
    open spec fn op_view(self) -> OpView {
        OpView::Jmp(self)
    }

    fn op(self) -> (o: Op) {
        Op::Jmp(self)
    }
}

impl Operand for LabelRef {
    open spec fn op_view(self) -> OpView {
        OpView::Label(self)
    }

    fn op(self) -> (o: Op) {
        Op::Label(self)
    }
}

impl Operand for BlockRef {
    open spec fn op_view(self) -> OpView {
        OpView::Block(self)
    }

    fn op(self) -> (o: Op) {
        Op::Block(self)
    }
}

impl Op {
    pub fn xor<L: ToLocation, R: ToLocation>(lhs: L, rhs: R) -> (op: Op)
        ensures
            op@ == OpView::Xor((Xor { lhs: lhs.location(), rhs: rhs.location() })),
    {
        Op::Xor(Xor { lhs: lhs.to_location(), rhs: rhs.to_location() })
    }

    pub fn mov<L: ToLocation, R: ToLocation>(lhs: L, rhs: R) -> (op: Op)
        ensures
            op@ == OpView::Mov((Mov { dst: lhs.location(), src: rhs.location() })),
    {
        Op::Mov(Mov { dst: lhs.to_location(), src: rhs.to_location() })
    }

    pub fn add<L: ToLocation, R: ToLocation>(lhs: L, rhs: R) -> (op: Op)
        ensures
            op@ == OpView::Add((Add { lhs: lhs.location(), rhs: rhs.location() })),
    {
        Op::Add(Add { lhs: lhs.to_location(), rhs: rhs.to_location() })
    }

    pub fn sub<L: ToLocation, R: ToLocation>(lhs: L, rhs: R) -> (op: Op)
        ensures
            op@ == OpView::Sub((Sub { lhs: lhs.location(), rhs: rhs.location() })),
    {
        Op::Sub(Sub { lhs: lhs.to_location(), rhs: rhs.to_location() })
    }

    pub fn cmp<L: ToLocation, R: ToLocation>(lhs: L, rhs: R) -> (op: Op)
        ensures
            op@ == OpView::Cmp((Cmp { lhs: lhs.location(), rhs: rhs.location() })),
    {
        Op::Cmp(Cmp { lhs: lhs.to_location(), rhs: rhs.to_location() })
    }

    pub fn jg(target: LabelRef) -> (op: Op)
        ensures
            op@ == OpView::Jg((Jg { dst: target })),
    {
        Op::Jg(Jg { dst: target })
    }

    pub fn jmp(target: LabelRef) -> (op: Op)
        ensures
            op@ == OpView::Jmp((Jmp { dst: target })),
    {
        Op::Jmp(Jmp { dst: target })
    }

    pub fn label(l: LabelRef) -> (op: Op)
        ensures
            op@ == OpView::Label(l),
    {
        Op::Label(l)
    }

    pub fn block(b: BlockRef) -> (op: Op)
        ensures
            op@ == OpView::Block(b),
    {
        Op::Block(b)
    }

    pub fn ret_none() -> (op: Op)
        ensures
            op@ == OpView::Ret(None),
    {
        Op::Ret(None)
    }

    pub fn ret_some<L: ToLocation>(l: L) -> (op: Op)
        ensures
            op@ == OpView::Ret(Some(l.location())),
    {
        Op::Ret(Some(l.to_location()))
    }

    pub fn comment(text: &str) -> (op: Op)
        ensures
            op@ == OpView::Comment(Some(text@)),
    {
        Op::Comment(Some(text.to_owned()))
    }
}

impl BlockRef {
    /// The block behind the handle.
    pub fn borrow(self, f: &Func) -> (b: &Block)
        requires
            f@.has_block(self),
        ensures
            *b == f.blocks@[self.0 as int],
            b@ == f@.block(self),
    {
        &f.blocks[self.0]
    }

    /// The block behind the handle, to be changed in place.
    pub fn borrow_mut(self, f: &mut Func) -> (b: &mut Block)
        requires
            old(f)@.has_block(self),
        ensures
            *b == old(f).blocks@[self.0 as int],
            final(f).blocks@ == old(f).blocks@.update(self.0 as int, *final(b)),
            final(f).public == old(f).public,
            final(f).name == old(f).name,
            final(f).entry == old(f).entry,
    {
        &mut f.blocks[self.0]
    }
}

/// A function in which one block was replaced is, as a view, the old view
/// with that block's view replaced.
pub proof fn lemma_block_replaced(before: Func, after: Func, b: BlockRef, block: Block)
    requires
        before@.has_block(b),
        after.blocks@ == before.blocks@.update(b.0 as int, block),
        after.public == before.public,
        after.name == before.name,
        after.entry == before.entry,
    ensures
        after@ == before@.with_block(b, block@),
{
}

impl LabelRef {
    /// The label behind the handle.
    pub fn borrow(self, f: &Func) -> (l: &Label)
        requires
            f@.has_label(self),
        ensures
            *l == f.blocks@[self.0.0 as int].labels@[self.1 as int],
            l@ == f@.label(self),
    {
        &self.0.borrow(f).labels[self.1]
    }

    /// The label behind the handle, to be changed in place.
    pub fn borrow_mut(self, f: &mut Func) -> (l: &mut Label)
        requires
            old(f)@.has_label(self),
        ensures
            *l == old(f).blocks@[self.0.0 as int].labels@[self.1 as int],
            final(f).public == old(f).public,
            final(f).name == old(f).name,
            final(f).entry == old(f).entry,
            final(f).blocks@.len() == old(f).blocks@.len(),
            forall|i: int|
                0 <= i < old(f).blocks@.len() && i != self.0.0 ==> final(f).blocks@[i] == old(
                    f,
                ).blocks@[i],
            final(f).blocks@[self.0.0 as int].own_ref == old(f).blocks@[self.0.0 as int].own_ref,
            final(f).blocks@[self.0.0 as int].locals == old(f).blocks@[self.0.0 as int].locals,
            final(f).blocks@[self.0.0 as int].ops == old(f).blocks@[self.0.0 as int].ops,
            final(f).blocks@[self.0.0 as int].labels@ == old(f).blocks@[self.0.0 as int].labels@.update(
                self.1 as int,
                *final(l),
            ),
    {
        &mut self.0.borrow_mut(f).labels[self.1]
    }
}

impl LocalRef {
    /// The local behind the handle.
    pub fn borrow(self, f: &Func) -> (l: &Local)
        requires
            f@.has_local(self),
        ensures
            *l == f.blocks@[self.0.0 as int].locals@[self.1 as int],
            l@ == f@.local(self),
    {
        &self.0.borrow(f).locals[self.1]
    }

    /// The local behind the handle, to be changed in place.
    pub fn borrow_mut(self, f: &mut Func) -> (l: &mut Local)
        requires
            old(f)@.has_local(self),
        ensures
            *l == old(f).blocks@[self.0.0 as int].locals@[self.1 as int],
            final(f).public == old(f).public,
            final(f).name == old(f).name,
            final(f).entry == old(f).entry,
            final(f).blocks@.len() == old(f).blocks@.len(),
            forall|i: int|
                0 <= i < old(f).blocks@.len() && i != self.0.0 ==> final(f).blocks@[i] == old(
                    f,
                ).blocks@[i],
            final(f).blocks@[self.0.0 as int].own_ref == old(f).blocks@[self.0.0 as int].own_ref,
            final(f).blocks@[self.0.0 as int].labels == old(f).blocks@[self.0.0 as int].labels,
            final(f).blocks@[self.0.0 as int].ops == old(f).blocks@[self.0.0 as int].ops,
            final(f).blocks@[self.0.0 as int].locals@ == old(f).blocks@[self.0.0 as int].locals@.update(
                self.1 as int,
                *final(l),
            ),
    {
        &mut self.0.borrow_mut(f).locals[self.1]
    }
}

impl Func {
    /// A private function of one block, its entry, which is empty.
    pub fn new(name: &str) -> (f: Func)
        ensures
            f@ == FuncView::fresh(name@),
            f@.wf(),
    {
        let mut f = Func { public: false, name: name.to_owned(), entry: BlockRef(0), blocks: Vec::new() };
        f.push_block();
        f
    }

    /// Appends an empty block. It is part of no other block until a `Block`
    /// operation names it.
    pub fn push_block(&mut self) -> (b: BlockRef)
        ensures
            b == old(self)@.next_block(),
            b.0 == old(self)@.blocks.len(),
            final(self)@ == old(self)@.with_new_block(),
    {
        let b = BlockRef(self.blocks.len());
        let block = Block { own_ref: b, locals: Vec::new(), labels: Vec::new(), ops: Vec::new() };
        assert(block@ =~= BlockView::empty(b));
        self.blocks.push(block);
        b
    }
}

/// The size of the first `k + 1` locals is the size of the first `k` and of
/// the one after them.
pub proof fn lemma_locals_size_step(locals: Seq<LocalView>, k: int)
    requires
        0 <= k < locals.len(),
    ensures
        locals_size(locals.take(k + 1)) == locals_size(locals.take(k)) + locals[k].typ.size(),
{
    assert(locals.take(k + 1).drop_last() =~= locals.take(k));
}

/// The locals at the front take no more room than all of them.
pub proof fn lemma_locals_size_bounds(locals: Seq<LocalView>, k: int)
    requires
        0 <= k <= locals.len(),
    ensures
        0 <= locals_size(locals.take(k)) <= locals_size(locals),
    decreases locals.len() - k,
{
    if k == locals.len() {
        assert(locals.take(k) =~= locals);
        lemma_locals_size_nonnegative(locals);
    } else {
        lemma_locals_size_bounds(locals, k + 1);
        lemma_locals_size_step(locals, k);
        lemma_locals_size_nonnegative(locals.take(k));
    }
}

pub proof fn lemma_locals_size_nonnegative(locals: Seq<LocalView>)
    ensures
        0 <= locals_size(locals),
    decreases locals.len(),
{
    if locals.len() > 0 {
        lemma_locals_size_nonnegative(locals.drop_last());
    }
}

impl Block {
    /// Declares a local at the end of the block's locals.
    pub fn push_local(&mut self, name: &str, typ: Type) -> (l: LocalRef)
        ensures
            l.0 == old(self).own_ref,
            l.1 == old(self)@.locals.len(),
            final(self)@ == old(self)@.with_local((LocalView { name: name@, typ })),
    {
        let local = Local { name: name.to_owned(), typ };
        let l = LocalRef(self.own_ref, self.locals.len());
        self.locals.push(local);
        l
    }

    /// Mints a label at the end of the block's labels.
    pub fn new_label(&mut self, labels: &mut LabelGen) -> (l: LabelRef)
        requires
            old(labels).upcoming() < u64::MAX,
        ensures
            l.0 == old(self).own_ref,
            l.1 == old(self)@.labels.len(),
            final(self)@ == old(self)@.with_label(label_name(old(labels).upcoming())),
            final(labels).upcoming() == old(labels).upcoming() + 1,
    {
        let label = Label::new(labels);
        let l = LabelRef(self.own_ref, self.labels.len());
        self.labels.push(label);
        l
    }

    /// Stores an operation at the end of the block, rewritten where the
    /// target could not encode it.
    pub fn push_op<O: Operand>(&mut self, op: O)
        requires
            legalizable(op.op_view()),
        ensures
            final(self)@ == old(self)@.with_ops(legalize(op.op_view())),
            old(self)@.encodable() ==> final(self)@.encodable(),
    {
        proof {
            lemma_legalize_is_encodable(op.op_view());
        }
        let op = op.op();
        let rax = Location::Register(Reg::RAX);
        match op {
            Op::Xor(o) => {
                if o.lhs.is_displaced() && o.rhs.is_displaced() {
                    self.ops.push(Op::Mov(Mov { dst: rax, src: o.lhs }));
                    self.ops.push(Op::Xor(Xor { lhs: rax, rhs: o.rhs }));
                    self.ops.push(Op::Mov(Mov { dst: o.lhs, src: rax }));
                } else {
                    self.ops.push(Op::Xor(o));
                }
            },
            Op::Add(o) => {
                if o.lhs.is_displaced() && o.rhs.is_displaced() {
                    self.ops.push(Op::Mov(Mov { dst: rax, src: o.lhs }));
                    self.ops.push(Op::Add(Add { lhs: rax, rhs: o.rhs }));
                    self.ops.push(Op::Mov(Mov { dst: o.lhs, src: rax }));
                } else {
                    self.ops.push(Op::Add(o));
                }
            },
            Op::Sub(o) => {
                if o.lhs.is_displaced() && o.rhs.is_displaced() {
                    self.ops.push(Op::Mov(Mov { dst: rax, src: o.lhs }));
                    self.ops.push(Op::Sub(Sub { lhs: rax, rhs: o.rhs }));
                    self.ops.push(Op::Mov(Mov { dst: o.lhs, src: rax }));
                } else {
                    self.ops.push(Op::Sub(o));
                }
            },
            Op::Cmp(o) => {
                if o.lhs.is_displaced() && o.rhs.is_displaced() {
                    self.ops.push(Op::Mov(Mov { dst: rax, src: o.lhs }));
                    self.ops.push(Op::Cmp(Cmp { lhs: rax, rhs: o.rhs }));
                    self.ops.push(Op::Mov(Mov { dst: o.lhs, src: rax }));
                } else {
                    self.ops.push(Op::Cmp(o));
                }
            },
            other => {
                self.ops.push(other);
            },
        }
    }

    /// The girth of the block: the total size of its locals, in bytes.
    pub fn locals_girth(&self, f: &Func) -> (g: i64)
        requires
            self@.girth() <= i64::MAX,
        ensures
            g == self@.girth(),
    {
        let mut res: i64 = 0;
        let mut i: usize = 0;
        while i < self.locals.len()
            invariant
                i <= self.locals@.len(),
                self@.locals.len() == self.locals@.len(),
                res == locals_size(self@.locals.take(i as int)),
                self@.girth() <= i64::MAX,
            decreases self.locals@.len() - i,
        {
            proof {
                lemma_locals_size_step(self@.locals, i as int);
                lemma_locals_size_bounds(self@.locals, i as int);
                lemma_locals_size_bounds(self@.locals, i + 1);
            }
            res = res + self.locals[i].typ.byte_width(f);
            i = i + 1;
        }
        assert(self@.locals.take(i as int) =~= self@.locals);
        res
    }
}

/// The width of an operand in `f`, in bytes: that of its type for a local,
/// that of a register for any other.
pub open spec fn location_size(f: FuncView, loc: Location) -> int {
    match loc {
        Location::Local(l) => f.local(l).typ.size(),
        _ => 8,
    }
}

/// Anything that takes room on the stack or in a register.
pub trait Girthy {
    /// Whether the width of `self` is defined in `f`.
    spec fn measurable(&self, f: FuncView) -> bool;

    /// The width of `self` in `f`, in bytes.
    spec fn width(&self, f: FuncView) -> int;

    fn byte_width(&self, f: &Func) -> (w: i64)
        requires
            self.measurable(f@),
        ensures
            w == self.width(f@),
    ;
}

impl Girthy for Type {
    open spec fn measurable(&self, f: FuncView) -> bool {
        true
    }

    open spec fn width(&self, f: FuncView) -> int {
        self.size()
    }

    fn byte_width(&self, f: &Func) -> (w: i64) {
        match self {
            Type::I64 => 8,
        }
    }
}

impl Girthy for Reg {
    open spec fn measurable(&self, f: FuncView) -> bool {
        true
    }

    open spec fn width(&self, f: FuncView) -> int {
        8
    }

    fn byte_width(&self, f: &Func) -> (w: i64) {
        8
    }
}

impl Girthy for Location {
    open spec fn measurable(&self, f: FuncView) -> bool {
        *self matches Location::Local(l) ==> f.has_local(l)
    }

    open spec fn width(&self, f: FuncView) -> int {
        location_size(f, *self)
    }

    fn byte_width(&self, f: &Func) -> (w: i64) {
        match self {
            Location::Displaced(d) => d.register.byte_width(f),
            Location::Register(r) => r.byte_width(f),
            Location::Local(l) => {
                let local = l.borrow(f);
                local.typ.byte_width(f)
            },
            Location::Imm64(_) => 8,
        }
    }
}

/// The name of a register in assembly text.
pub open spec fn reg_name(r: Reg) -> Seq<char> {
    match r {
        Reg::RAX => "rax"@,
        Reg::RBX => "rbx"@,
        Reg::RCX => "rcx"@,
        Reg::RDX => "rdx"@,
        Reg::RSI => "rsi"@,
        Reg::RDI => "rdi"@,
        Reg::RBP => "rbp"@,
        Reg::RSP => "rsp"@,
        Reg::R8 => "r8"@,
        Reg::R9 => "r9"@,
        Reg::R10 => "r10"@,
        Reg::R11 => "r11"@,
        Reg::R12 => "r12"@,
        Reg::R13 => "r13"@,
        Reg::R14 => "r14"@,
        Reg::R15 => "r15"@,
    }
}

impl Reg {
    /// The name of the register in assembly text.
    pub fn nasm_name(self) -> (s: &'static str)
        ensures
            s@ == reg_name(self),
    {
        match self {
            Reg::RAX => "rax",
            Reg::RBX => "rbx",
            Reg::RCX => "rcx",
            Reg::RDX => "rdx",
            Reg::RSI => "rsi",
            Reg::RDI => "rdi",
            Reg::RBP => "rbp",
            Reg::RSP => "rsp",
            Reg::R8 => "r8",
            Reg::R9 => "r9",
            Reg::R10 => "r10",
            Reg::R11 => "r11",
            Reg::R12 => "r12",
            Reg::R13 => "r13",
            Reg::R14 => "r14",
            Reg::R15 => "r15",
        }
    }

    /// Appends the name of the register to `w`.
    pub fn write_nasm_name(self, w: &mut String)
        ensures
            final(w)@ == old(w)@ + reg_name(self),
    {
        w.append(self.nasm_name());
    }
}

/// The keyword that tells the assembler the size of a memory operand.
pub open spec fn opsize_name(width: int) -> Seq<char> {
    if width == 1 {
        "byte"@
    } else if width == 2 {
        "word"@
    } else if width == 4 {
        "dword"@
    } else if width == 8 {
        "qword"@
    } else {
        "<invalid_width>"@
    }
}

/// The keyword that tells the assembler the size of a memory operand of
/// `width` bytes.
pub fn byte_width_to_opsize(width: i64) -> (s: &'static str)
    ensures
        s@ == opsize_name(width as int),
{
    if width == 1 {
        "byte"
    } else if width == 2 {
        "word"
    } else if width == 4 {
        "dword"
    } else if width == 8 {
        "qword"
    } else {
        "<invalid_width>"
    }
}

} // verus!

//! The lowering pass: from the statement tree of a function to its
//! intermediate representation.
//!
//! The pass walks the tree with a stack of items. A scope item stands for a
//! block that is being filled and holds the names declared in it; a loop
//! item holds the labels that `continue` and `break` jump to.

use crate::ast;
use crate::diag::Error;
use crate::ir::{
    Add, Block, BlockRef, Cmp, Func, FuncView, Jg, Jmp, LabelGen, LabelRef, LocalRef, LocalView,
    Location, Mov, Op, OpView, Reg, Sub, Type, dual_memory, label_name, label_number, legalizable,
    legalize, lemma_block_replaced, lemma_mint_numbered, lemma_numbered_wider,
    lemma_same_labels_numbered, two_memory,
};
use crate::ir::emit::{emit_all, emittable, func_views, loc_ok, simple_op_ok, unit_text};
use crate::ir::nesting::{
    extends, keeps, lemma_extends_keeps, lemma_well_nested_is_emittable, total_girth, well_nested,
};
use crate::ir::validate::is_emittable;
use crate::middle::rules::{
    Binary, Branch, agrees, assigned, binary_op, branch, branched, combined, declared, entered_if,
    expressed, function_start, is_simple, jumped, jumped_if, loaded, looped, lowerable, lowered,
    lowered_all, lowered_function, lowered_unit, mov_op, nested, operand, passed_unless, reports,
    returned, shortcut,
};
use crate::middle::sound::{
    chain, inv, lemma_bind_keeps_block, lemma_bind_keeps_inv, lemma_close_keeps_inv,
    lemma_current_on_chain, lemma_emit_keeps_inv, lemma_enter_loop_keeps_inv, lemma_initial_inv,
    lemma_inv_any_counter, lemma_inv_is_well_nested, lemma_leave_loop_keeps_inv,
    lemma_local_keeps_inv, lemma_lookup_sound, lemma_mint_keeps_inv, lemma_nearest_loop_sound,
    lemma_open_keeps_inv,
};
use vstd::prelude::*;

pub mod rules;
pub mod sound;

verus! {

/// The file that a unit is compiled into. Nothing is kept of it yet.
pub struct File {}

/// The labels of a loop that is being lowered.
#[derive(Debug, Clone, Copy, PartialEq, Eq, Structural)]
pub struct Loop {
    pub continue_label: LabelRef,
    pub break_label: LabelRef,
}

/// A source name and the local that it stands for.
#[derive(Debug)]
pub struct Binding {
    pub name: String,
    pub local: LocalRef,
}

/// A block that is being filled, and the names declared in it. A later
/// binding of a name hides an earlier one.
#[derive(Debug)]
pub struct Scope {
    pub block: BlockRef,
    pub bindings: Vec<Binding>,
}

#[verifier::ext_equal]
pub struct ScopeView {
    pub block: BlockRef,
    pub bindings: Seq<(Seq<char>, LocalRef)>,
}

impl View for Scope {
    type V = ScopeView;

    open spec fn view(&self) -> ScopeView {
        ScopeView {
            block: self.block,
            bindings: self.bindings@.map_values(|b: Binding| (b.name@, b.local)),
        }
    }
}

#[derive(Debug)]
pub enum Item {
    Loop(Loop),
    Scope(Scope),
}

#[verifier::ext_equal]
pub enum ItemView {
    Loop(Loop),
    Scope(ScopeView),
}

impl View for Item {
    type V = ItemView;

    open spec fn view(&self) -> ItemView {
        match *self {
            Item::Loop(l) => ItemView::Loop(l),
            Item::Scope(s) => ItemView::Scope(s@),
        }
    }
}

impl From<Scope> for Item {
    fn from(s: Scope) -> (i: Item) {
        Item::Scope(s)
    }
}

impl vstd::std_specs::convert::FromSpecImpl<Scope> for Item {
    open spec fn obeys_from_spec() -> bool {
        true
    }

    open spec fn from_spec(s: Scope) -> Item {
        Item::Scope(s)
    }
}

/// The state of the pass: the function that is being built, and the items
/// that are open.
#[derive(Debug)]
pub struct Stack {
    pub f: Func,
    pub items: Vec<Item>,
}

/// The state of the pass as a value: the function built so far, the items
/// that are open, and the number of the next label.
#[verifier::ext_equal]
pub struct State {
    pub f: FuncView,
    pub items: Seq<ItemView>,
    pub next_label: nat,
}

/// Why a function could not be lowered.
pub enum Failure {
    /// This identifier is assigned to or read, and no open scope declares
    /// it.
    Unresolved(ast::Id),
    /// A label was needed and the counter had run out.
    LabelsExhausted,
}

/// The local that the latest binding of `name` stands for.
pub open spec fn find_binding(bindings: Seq<(Seq<char>, LocalRef)>, name: Seq<char>) -> Option<
    LocalRef,
>
    decreases bindings.len(),
{
    if bindings.len() == 0 {
        None
    } else if bindings.last().0 == name {
        Some(bindings.last().1)
    } else {
        find_binding(bindings.drop_last(), name)
    }
}

/// The local that `name` stands for: the innermost scope that declares it
/// decides.
pub open spec fn lookup(items: Seq<ItemView>, name: Seq<char>) -> Option<LocalRef>
    decreases items.len(),
{
    if items.len() == 0 {
        None
    } else {
        match items.last() {
            ItemView::Scope(s) => match find_binding(s.bindings, name) {
                Some(l) => Some(l),
                None => lookup(items.drop_last(), name),
            },
            ItemView::Loop(_) => lookup(items.drop_last(), name),
        }
    }
}

/// The index of the innermost scope, or -1 where no scope is open.
pub open spec fn scope_index(items: Seq<ItemView>) -> int
    decreases items.len(),
{
    if items.len() == 0 {
        -1
    } else if items.last() is Scope {
        items.len() - 1
    } else {
        scope_index(items.drop_last())
    }
}

/// The innermost loop that is open.
pub open spec fn nearest_loop(items: Seq<ItemView>) -> Option<Loop>
    decreases items.len(),
{
    if items.len() == 0 {
        None
    } else {
        match items.last() {
            ItemView::Loop(l) => Some(l),
            ItemView::Scope(_) => nearest_loop(items.drop_last()),
        }
    }
}

/// The views of a stack of items.
pub open spec fn item_views(items: Seq<Item>) -> Seq<ItemView> {
    items.map_values(|i: Item| i@)
}

/// What an item is, apart from the names that are bound in it: the labels of
/// a loop, or the block of a scope.
pub enum Frame {
    Loop(Loop),
    Scope(BlockRef),
}

pub open spec fn frame(item: ItemView) -> Frame {
    match item {
        ItemView::Loop(l) => Frame::Loop(l),
        ItemView::Scope(s) => Frame::Scope(s.block),
    }
}

/// The frames of a stack of items, bottom first.
pub open spec fn frames(items: Seq<ItemView>) -> Seq<Frame> {
    items.map_values(|i: ItemView| frame(i))
}

impl State {
    /// The state in which the lowering of a function starts: only the scope
    /// of the entry block is open.
    pub open spec fn initial(f: FuncView, next_label: nat) -> State {
        State {
            f,
            items: seq![ItemView::Scope(ScopeView { block: f.entry, bindings: Seq::empty() })],
            next_label,
        }
    }

    /// The innermost scope.
    pub open spec fn scope(self) -> ScopeView {
        self.items[scope_index(self.items)]->Scope_0
    }

    /// The block that is being filled: that of the innermost scope.
    pub open spec fn block(self) -> BlockRef {
        self.scope().block
    }

    /// The bottom item is a scope, the block of every scope exists, every
    /// block knows its own handle, and the label counter is a machine
    /// number.
    pub open spec fn wf(self) -> bool {
        &&& self.f.wf()
        &&& self.items.len() > 0
        &&& self.items[0] is Scope
        &&& forall|i: int|
            0 <= i < self.items.len() ==> ((#[trigger] self.items[i]) matches ItemView::Scope(s)
                ==> self.f.has_block(s.block))
        &&& self.next_label <= u64::MAX
    }

    /// The state after `op` is stored in the current block.
    pub open spec fn emit(self, op: OpView) -> State {
        State {
            f: self.f.with_block(self.block(), self.f.block(self.block()).with_ops(legalize(op))),
            ..self
        }
    }

    /// The handle that the next local of the current block gets.
    pub open spec fn fresh_local(self) -> LocalRef {
        LocalRef(self.block(), self.f.block(self.block()).locals.len() as usize)
    }

    /// The state after a local is declared in the current block.
    pub open spec fn with_local(self, name: Seq<char>) -> State {
        State {
            f: self.f.with_block(
                self.block(),
                self.f.block(self.block()).with_local(LocalView { name, typ: Type::I64 }),
            ),
            ..self
        }
    }

    /// The state after `name` is bound to `local` in the innermost scope.
    pub open spec fn bind(self, name: Seq<char>, local: LocalRef) -> State {
        let i = scope_index(self.items);
        let scope = self.scope();
        State {
            items: self.items.update(
                i,
                ItemView::Scope(
                    ScopeView { block: scope.block, bindings: scope.bindings.push((name, local)) },
                ),
            ),
            ..self
        }
    }

    /// The state after a variable is declared: a local in the current
    /// block, and its name bound to it.
    pub open spec fn declare(self, name: Seq<char>) -> State {
        self.with_local(name).bind(name, self.fresh_local())
    }

    /// The handle that the next label of the current block gets.
    pub open spec fn fresh_label(self) -> LabelRef {
        LabelRef(self.block(), self.f.block(self.block()).labels.len() as usize)
    }

    /// The state after a label is minted in the current block.
    pub open spec fn mint(self) -> State {
        State {
            f: self.f.with_block(
                self.block(),
                self.f.block(self.block()).with_label(label_name(self.next_label)),
            ),
            next_label: self.next_label + 1,
            ..self
        }
    }

    /// The state after `item` is opened.
    pub open spec fn enter(self, item: ItemView) -> State {
        State { items: self.items.push(item), ..self }
    }

    /// The state after the innermost item is closed.
    pub open spec fn leave(self) -> State {
        State { items: self.items.drop_last(), ..self }
    }

    /// The state after a block is nested in the current one: the new block
    /// is named by a `Block` operation there, and its scope is opened.
    pub open spec fn open_block(self) -> State {
        let child = self.f.next_block();
        State { f: self.f.with_new_block(), ..self }.emit(OpView::Block(child)).enter(
            ItemView::Scope(ScopeView { block: child, bindings: Seq::empty() }),
        )
    }
}

/// Where the bottom item is a scope, there is an innermost scope.
pub proof fn lemma_scope_index(items: Seq<ItemView>)
    requires
        items.len() > 0,
        items[0] is Scope,
    ensures
        0 <= scope_index(items) < items.len(),
        items[scope_index(items)] is Scope,
    decreases items.len(),
{
    if !(items.last() is Scope) {
        lemma_scope_index(items.drop_last());
    }
}

/// The block that is being filled exists.
pub proof fn lemma_current_block(s: State)
    requires
        s.wf(),
    ensures
        s.f.has_block(s.block()),
        s.f.block(s.block()).own_ref == s.block(),
        0 <= scope_index(s.items) < s.items.len(),
        s.items[scope_index(s.items)] is Scope,
{
    lemma_scope_index(s.items);
}

impl Scope {
    /// The scope of `block`, with nothing declared yet.
    pub fn new(block: BlockRef) -> (s: Scope)
        ensures
            s@ == (ScopeView { block, bindings: Seq::empty() }),
    {
        let s = Scope { block, bindings: Vec::new() };
        s
    }

    /// Binds `name` to `local`. An earlier binding of the name is hidden.
    pub fn add_binding(&mut self, name: &str, local: LocalRef)
        ensures
            final(self)@ == (ScopeView {
                block: old(self).block,
                bindings: old(self)@.bindings.push((name@, local)),
            }),
    {
        self.bindings.push(Binding { name: name.to_owned(), local });
    }

    /// The local that the latest binding of `name` stands for.
    pub fn find(&self, name: &String) -> (l: Option<LocalRef>)
        ensures
            l == find_binding(self@.bindings, name@),
    {
        let ghost all = self@.bindings;
        let mut k: usize = self.bindings.len();
        proof {
            assert(all.take(k as int) =~= all);
        }
        while k > 0
            invariant
                k <= self.bindings@.len(),
                all == self@.bindings,
                find_binding(all, name@) == find_binding(all.take(k as int), name@),
            decreases k,
        {
            k = k - 1;
            proof {
                assert(all.take(k + 1).drop_last() =~= all.take(k as int));
            }
            if self.bindings[k].name == *name {
                return Some(self.bindings[k].local);
            }
        }
        None
    }
}

impl Stack {
    /// The state of the pass, with `next_label` as the number of the next
    /// label.
    pub open spec fn state(&self, next_label: nat) -> State {
        State { f: self.f@, items: item_views(self.items@), next_label }
    }

    /// The stack on which the lowering of `f` starts.
    pub fn new(f: Func) -> (st: Stack)
        ensures
            st.f == f,
            forall|n: nat| #[trigger] st.state(n) == State::initial(f@, n),
            f@.wf() && f@.block(f@.entry).ops.len() == 0 ==> st.sound(),
    {
        let mut items = Vec::new();
        items.push(Item::Scope(Scope::new(f.entry)));
        let st = Stack { f, items };
        assert forall|n: nat| #[trigger] st.state(n) == State::initial(f@, n) by {}
        proof {
            if f@.wf() && f@.block(f@.entry).ops.len() == 0 {
                lemma_initial_inv(f@, 0);
            }
        }
        st
    }

    /// The function that is being built.
    pub fn f(&mut self) -> (f: &mut Func)
        ensures
            *f == old(self).f,
            final(self).f == *final(f),
            final(self).items == old(self).items,
    {
        &mut self.f
    }

    /// Where the innermost scope lies on the stack.
    pub fn scope_position(&self) -> (i: usize)
        requires
            self.items@.len() > 0,
            self.items@[0] is Scope,
        ensures
            i == scope_index(item_views(self.items@)),
            i < self.items@.len(),
            self.items@[i as int] is Scope,
    {
        let ghost all = item_views(self.items@);
        let mut i: usize = self.items.len();
        proof {
            assert(all.take(i as int) =~= all);
        }
        while i > 0
            invariant
                i <= self.items@.len(),
                all == item_views(self.items@),
                self.items@.len() > 0,
                self.items@[0] is Scope,
                i == 0 ==> false,
                scope_index(all) == scope_index(all.take(i as int)),
            decreases i,
        {
            i = i - 1;
            proof {
                assert(all.take(i + 1).drop_last() =~= all.take(i as int));
            }
            match &self.items[i] {
                Item::Scope(_) => {
                    return i;
                },
                Item::Loop(_) => {},
            }
        }
        0
    }

    /// The local that `name` stands for, if an open scope declares it.
    pub fn lookup(&self, name: &str) -> (l: Option<LocalRef>)
        ensures
            l == lookup(item_views(self.items@), name@),
            self.sound() ==> (l matches Some(x) ==> loc_ok(
                self.f@,
                chain(item_views(self.items@)),
                Location::Local(x),
            )),
    {
        proof {
            if self.sound() {
                lemma_lookup_sound(self.f@, item_views(self.items@), name@);
            }
        }
        let key = name.to_owned();
        let ghost all = item_views(self.items@);
        let mut i: usize = self.items.len();
        proof {
            assert(all.take(i as int) =~= all);
        }
        while i > 0
            invariant
                i <= self.items@.len(),
                all == item_views(self.items@),
                key@ == name@,
                lookup(all, name@) == lookup(all.take(i as int), name@),
                self.sound() ==> (lookup(all, name@) matches Some(x) ==> loc_ok(
                    self.f@,
                    chain(all),
                    Location::Local(x),
                )),
            decreases i,
        {
            i = i - 1;
            proof {
                assert(all.take(i + 1).drop_last() =~= all.take(i as int));
            }
            match &self.items[i] {
                Item::Scope(s) => {
                    match s.find(&key) {
                        Some(l) => {
                            return Some(l);
                        },
                        None => {},
                    }
                },
                Item::Loop(_) => {},
            }
        }
        None
    }

    /// The labels of the innermost loop that is open.
    pub fn nearest_loop(&self) -> (l: Option<Loop>)
        ensures
            l == nearest_loop(item_views(self.items@)),
            self.sound() ==> (l matches Some(x) ==> self.f@.has_label(x.continue_label)
                && self.f@.has_label(x.break_label)),
    {
        proof {
            if self.sound() {
                lemma_nearest_loop_sound(self.f@, item_views(self.items@));
            }
        }
        let ghost all = item_views(self.items@);
        let mut i: usize = self.items.len();
        proof {
            assert(all.take(i as int) =~= all);
        }
        while i > 0
            invariant
                i <= self.items@.len(),
                all == item_views(self.items@),
                nearest_loop(all) == nearest_loop(all.take(i as int)),
                self.sound() ==> (nearest_loop(all) matches Some(x) ==> self.f@.has_label(
                    x.continue_label,
                ) && self.f@.has_label(x.break_label)),
            decreases i,
        {
            i = i - 1;
            proof {
                assert(all.take(i + 1).drop_last() =~= all.take(i as int));
            }
            match &self.items[i] {
                Item::Loop(l) => {
                    return Some(*l);
                },
                Item::Scope(_) => {},
            }
        }
        None
    }

    /// Opens `item`.
    pub fn push(&mut self, item: Item)
        ensures
            final(self).f == old(self).f,
            final(self).items@ == old(self).items@.push(item),
            forall|n: nat| #[trigger] final(self).state(n) == old(self).state(n).enter(item@),
    {
        self.items.push(item);
        assert forall|n: nat| #[trigger] self.state(n) == old(self).state(n).enter(item@) by {}
    }

    /// Closes the innermost item.
    pub fn pop(&mut self)
        requires
            old(self).items@.len() > 0,
        ensures
            final(self).f == old(self).f,
            final(self).items@ == old(self).items@.drop_last(),
            forall|n: nat| #[trigger] final(self).state(n) == old(self).state(n).leave(),
    {
        self.items.pop();
        assert forall|n: nat| #[trigger] self.state(n) == old(self).state(n).leave() by {}
    }

    /// The function that was built. Only the scope of the entry block may
    /// still be open.
    pub fn into_inner(self) -> (f: Func)
        requires
            self.items@.len() == 1,
        ensures
            f == self.f,
    {
        self.f
    }
}

/// Whatever numbering the labels of `earlier` have, the labels of `later`
/// have it too: no label was minted in between.
pub open spec fn keeps_numbering(later: FuncView, earlier: FuncView) -> bool {
    forall|lo: nat, hi: nat| #[trigger] earlier.numbered(lo, hi) ==> later.numbered(lo, hi)
}

/// The labels minted between `earlier` and `later` were minted with the
/// numbers from `from` up to, but not including, `to`.
pub open spec fn extends_numbering(later: FuncView, earlier: FuncView, from: nat, to: nat) -> bool {
    &&& from <= to
    &&& forall|lo: nat| lo <= from && #[trigger] earlier.numbered(lo, from) ==> later.numbered(lo, to)
}

impl Stack {
    /// What the pass relies on between two steps.
    pub open spec fn wf(&self) -> bool {
        self.state(0).wf()
    }

    /// The frames of the open items, bottom first.
    pub open spec fn frames(&self) -> Seq<Frame> {
        frames(item_views(self.items@))
    }

    /// What the pass keeps between two steps, so that what it builds can be
    /// emitted.
    pub open spec fn sound(&self) -> bool {
        inv(self.state(0))
    }

    /// The block that is being filled.
    pub fn current(&self) -> (b: BlockRef)
        requires
            self.wf(),
        ensures
            b == self.state(0).block(),
            self.f@.has_block(b),
    {
        let i = self.scope_position();
        match &self.items[i] {
            Item::Scope(s) => s.block,
            Item::Loop(_) => BlockRef(0),
        }
    }

    /// The innermost scope, to be changed in place.
    pub fn scope(&mut self) -> (s: &mut Scope)
        requires
            old(self).wf(),
        ensures
            Item::Scope(*s) == old(self).items@[scope_index(item_views(old(self).items@))],
            final(self).items@ == old(self).items@.update(
                scope_index(item_views(old(self).items@)),
                Item::Scope(*final(s)),
            ),
            final(self).f == old(self).f,
    {
        let i = self.scope_position();
        proof {
            lemma_current_block(self.state(0));
        }
        match &mut self.items[i] {
            Item::Scope(s) => s,
            Item::Loop(_) => vstd::pervasive::unreached(),
        }
    }

    /// The block that is being filled, to be changed in place.
    pub fn block(&mut self) -> (b: &mut Block)
        requires
            old(self).wf(),
        ensures
            *b == old(self).f.blocks@[old(self).state(0).block().0 as int],
            final(self).f.blocks@ == old(self).f.blocks@.update(
                old(self).state(0).block().0 as int,
                *final(b),
            ),
            final(self).f.public == old(self).f.public,
            final(self).f.name == old(self).f.name,
            final(self).f.entry == old(self).f.entry,
            final(self).items == old(self).items,
    {
        let b = self.current();
        b.borrow_mut(&mut self.f)
    }

    /// Stores `op` in the current block.
    pub fn emit(&mut self, op: Op)
        requires
            old(self).wf(),
            legalizable(op@),
        ensures
            final(self).wf(),
            final(self).items == old(self).items,
            final(self).f@.blocks.len() == old(self).f@.blocks.len(),
            forall|n: nat| #[trigger] final(self).state(n) == old(self).state(n).emit(op@),
            keeps(final(self).f@, old(self).f@),
            keeps_numbering(final(self).f@, old(self).f@),
            old(self).f@.direct() && !two_memory(op@) ==> final(self).f@.direct(),
            old(self).sound() && !(op@ is Block) && !dual_memory(op@) && simple_op_ok(
                old(self).f@,
                chain(item_views(old(self).items@)),
                op@,
            ) ==> final(self).sound(),
    {
        let ghost v = op@;
        let ghost b = self.state(0).block();
        proof {
            lemma_current_block(self.state(0));
        }
        self.block().push_op(op);
        proof {
            lemma_block_replaced(old(self).f, self.f, b, self.f.blocks@[b.0 as int]);
            assert forall|n: nat| #[trigger] self.state(n) == old(self).state(n).emit(v) by {}
            lemma_extends_keeps(self.f@, old(self).f@);
            assert forall|lo: nat, hi: nat| #[trigger] old(self).f@.numbered(lo, hi) implies self.f@.numbered(
                lo,
                hi,
            ) by {
                lemma_same_labels_numbered(old(self).f@, self.f@, lo, hi);
            }
            if old(self).f@.direct() && !two_memory(v) {
                assert forall|x: int, k: int|
                    0 <= x < self.f@.blocks.len() && 0 <= k
                        < self.f@.blocks[x].ops.len() implies !two_memory(
                    #[trigger] self.f@.blocks[x].ops[k],
                ) by {}
            }
            if old(self).sound() && !(v is Block) && !dual_memory(v) && simple_op_ok(
                old(self).f@,
                chain(item_views(old(self).items@)),
                v,
            ) {
                lemma_emit_keeps_inv(old(self).state(0), v);
            }
        }
    }

    /// Declares a local in the current block, without binding a name to
    /// it.
    pub fn declare_local(&mut self, name: &str) -> (l: LocalRef)
        requires
            old(self).wf(),
        ensures
            final(self).wf(),
            final(self).items == old(self).items,
            l == old(self).state(0).fresh_local(),
            final(self).f@.has_local(l),
            l.0 == old(self).state(0).block(),
            final(self).f@.blocks.len() == old(self).f@.blocks.len(),
            forall|n: nat| #[trigger] final(self).state(n) == old(self).state(n).with_local(name@),
            keeps(final(self).f@, old(self).f@),
            keeps_numbering(final(self).f@, old(self).f@),
            old(self).f@.direct() ==> final(self).f@.direct(),
            old(self).sound() ==> final(self).sound(),
    {
        let ghost b = self.state(0).block();
        proof {
            lemma_current_block(self.state(0));
        }
        let l = self.block().push_local(name, Type::I64);
        proof {
            lemma_block_replaced(old(self).f, self.f, b, self.f.blocks@[b.0 as int]);
            assert forall|n: nat| #[trigger] self.state(n) == old(self).state(n).with_local(
                name@,
            ) by {}
            if old(self).f@.direct() {
                assert forall|x: int, k: int|
                    0 <= x < self.f@.blocks.len() && 0 <= k
                        < self.f@.blocks[x].ops.len() implies !two_memory(
                    #[trigger] self.f@.blocks[x].ops[k],
                ) by {}
            }
            lemma_extends_keeps(self.f@, old(self).f@);
            assert forall|lo: nat, hi: nat| #[trigger] old(self).f@.numbered(lo, hi) implies self.f@.numbered(
                lo,
                hi,
            ) by {
                lemma_same_labels_numbered(old(self).f@, self.f@, lo, hi);
            }
            if old(self).sound() {
                lemma_local_keeps_inv(old(self).state(0), name@);
            }
        }
        l
    }

    /// Binds `name` to `local` in the innermost scope.
    pub fn bind(&mut self, name: &str, local: LocalRef)
        requires
            old(self).wf(),
        ensures
            final(self).wf(),
            final(self).f == old(self).f,
            final(self).items@.len() == old(self).items@.len(),
            forall|n: nat| #[trigger] final(self).state(n) == old(self).state(n).bind(name@, local),
            old(self).sound() && local.0 == old(self).state(0).block() && old(self).f@.has_local(
                local,
            ) ==> final(self).sound(),
            final(self).state(0).block() == old(self).state(0).block(),
            final(self).frames() == old(self).frames(),
    {
        proof {
            lemma_current_block(self.state(0));
            lemma_bind_keeps_block(self.state(0), name@, local);
            if self.sound() && local.0 == self.state(0).block() && self.f@.has_local(local) {
                lemma_bind_keeps_inv(self.state(0), name@, local);
            }
        }
        self.scope().add_binding(name, local);
        proof {
            assert forall|n: nat| #[trigger] self.state(n) == old(self).state(n).bind(
                name@,
                local,
            ) by {}
            assert forall|k: int| 0 <= k < self.state(0).items.len() implies ((
            #[trigger] self.state(0).items[k]) matches ItemView::Scope(s) ==> self.f@.has_block(
                s.block,
            )) by {}
        }
    }

    /// Mints a label in the current block.
    pub fn mint(&mut self, labels: &mut LabelGen) -> (l: LabelRef)
        requires
            old(self).wf(),
            old(labels).upcoming() < u64::MAX,
        ensures
            final(self).wf(),
            final(self).items == old(self).items,
            l == old(self).state(0).fresh_label(),
            final(self).f@.blocks.len() == old(self).f@.blocks.len(),
            final(self).f@.has_label(l),
            final(labels).upcoming() == old(labels).upcoming() + 1,
            final(self).state(final(labels).upcoming()) == old(self).state(
                old(labels).upcoming(),
            ).mint(),
            keeps(final(self).f@, old(self).f@),
            extends_numbering(
                final(self).f@,
                old(self).f@,
                old(labels).upcoming(),
                final(labels).upcoming(),
            ),
            old(self).f@.direct() ==> final(self).f@.direct(),
            old(self).sound() ==> final(self).sound(),
    {
        let ghost b = self.state(0).block();
        proof {
            lemma_current_block(self.state(0));
        }
        let l = self.block().new_label(labels);
        proof {
            lemma_block_replaced(old(self).f, self.f, b, self.f.blocks@[b.0 as int]);
            lemma_extends_keeps(self.f@, old(self).f@);
            if old(self).f@.direct() {
                assert forall|x: int, k: int|
                    0 <= x < self.f@.blocks.len() && 0 <= k
                        < self.f@.blocks[x].ops.len() implies !two_memory(
                    #[trigger] self.f@.blocks[x].ops[k],
                ) by {}
            }
            assert forall|lo: nat|
                lo <= old(labels).upcoming() && #[trigger] old(self).f@.numbered(
                    lo,
                    old(labels).upcoming(),
                ) implies self.f@.numbered(lo, labels.upcoming()) by {
                lemma_mint_numbered(old(self).f@, b, lo, old(labels).upcoming());
            }
            if old(self).sound() {
                let before = old(self).state(old(labels).upcoming());
                lemma_inv_any_counter(old(self).state(0), old(labels).upcoming());
                lemma_mint_keeps_inv(before);
                lemma_inv_any_counter(before.mint(), 0);
            }
        }
        l
    }

    /// Nests a new block in the current one and opens its scope.
    pub fn open_block(&mut self)
        requires
            old(self).wf(),
        ensures
            final(self).wf(),
            final(self).items@.len() == old(self).items@.len() + 1,
            final(self).frames() == old(self).frames().push(
                Frame::Scope(old(self).f@.next_block()),
            ),
            forall|n: nat| #[trigger] final(self).state(n) == old(self).state(n).open_block(),
            keeps(final(self).f@, old(self).f@),
            keeps_numbering(final(self).f@, old(self).f@),
            old(self).f@.direct() ==> final(self).f@.direct(),
            old(self).sound() ==> final(self).sound(),
    {
        let child = self.f.push_block();
        proof {
            if old(self).sound() {
                assert(child.0 == old(self).f@.blocks.len());
                lemma_open_keeps_inv(old(self).state(0));
            }
            assert(self.f@.wf()) by {
                assert forall|i: int| 0 <= i < self.f@.blocks.len() implies (
                #[trigger] self.f@.blocks[i]).own_ref.0 == i by {}
            }
            assert(self.state(0).wf()) by {
                assert forall|k: int| 0 <= k < self.state(0).items.len() implies ((
                #[trigger] self.state(0).items[k]) matches ItemView::Scope(s)
                    ==> self.f@.has_block(s.block)) by {}
            }
        }
        let ghost mid = *self;
        self.emit(Op::Block(child));
        self.push(Item::Scope(Scope::new(child)));
        proof {
            assert forall|n: nat| #[trigger] self.state(n) == old(self).state(n).open_block() by {}
            assert forall|k: int| 0 <= k < self.state(0).items.len() implies ((
            #[trigger] self.state(0).items[k]) matches ItemView::Scope(s) ==> self.f@.has_block(
                s.block,
            )) by {}
            assert(keeps(mid.f@, old(self).f@)) by {
                lemma_extends_keeps(mid.f@, old(self).f@);
            }
            if old(self).f@.direct() {
                assert forall|x: int, k: int|
                    0 <= x < mid.f@.blocks.len() && 0 <= k < mid.f@.blocks[x].ops.len() implies !two_memory(
                    #[trigger] mid.f@.blocks[x].ops[k],
                ) by {}
            }
            assert forall|lo: nat, hi: nat| #[trigger] old(self).f@.numbered(lo, hi) implies mid.f@.numbered(
                lo,
                hi,
            ) by {
                lemma_same_labels_numbered(old(self).f@, mid.f@, lo, hi);
            }
        }
    }

    /// Closes the innermost scope, which is not the bottom one.
    pub fn close(&mut self)
        requires
            old(self).wf(),
            old(self).items@.len() > 1,
        ensures
            final(self).wf(),
            final(self).f == old(self).f,
            final(self).items@.len() == old(self).items@.len() - 1,
            final(self).frames() == old(self).frames().drop_last(),
            forall|n: nat| #[trigger] final(self).state(n) == old(self).state(n).leave(),
            old(self).sound() ==> final(self).sound(),
    {
        self.pop();
        proof {
            if old(self).sound() {
                if old(self).state(0).items.last() is Scope {
                    lemma_close_keeps_inv(old(self).state(0));
                } else {
                    lemma_leave_loop_keeps_inv(old(self).state(0));
                }
            }
            assert forall|k: int| 0 <= k < self.state(0).items.len() implies ((
            #[trigger] self.state(0).items[k]) matches ItemView::Scope(s) ==> self.f@.has_block(
                s.block,
            )) by {}
        }
    }
}

impl Stack {
    /// Opens the item of a loop.
    pub fn enter_loop(&mut self, l: Loop)
        requires
            old(self).wf(),
        ensures
            final(self).wf(),
            final(self).f == old(self).f,
            final(self).items@.len() == old(self).items@.len() + 1,
            final(self).frames() == old(self).frames().push(Frame::Loop(l)),
            forall|n: nat| #[trigger]
                final(self).state(n) == old(self).state(n).enter(ItemView::Loop(l)),
            old(self).sound() && old(self).f@.has_label(l.continue_label) && old(
                self,
            ).f@.has_label(l.break_label) ==> final(self).sound(),
    {
        self.push(Item::Loop(l));
        proof {
            if old(self).sound() && old(self).f@.has_label(l.continue_label) && old(
                self,
            ).f@.has_label(l.break_label) {
                lemma_enter_loop_keeps_inv(old(self).state(0), l);
            }
            assert forall|k: int| 0 <= k < self.state(0).items.len() implies ((
            #[trigger] self.state(0).items[k]) matches ItemView::Scope(s) ==> self.f@.has_block(
                s.block,
            )) by {}
        }
    }
}

fn unresolved(id: &ast::Id) -> (e: Error)
    ensures
        reports(e, Failure::Unresolved(*id)),
{
    let mut message = "cannot find value `".to_owned();
    message.append(id.value.as_str());
    message.append("` in this scope");
    Error::Diag(id.loc.position().diag_err(message).build())
}

fn binary(kind: Binary, lhs: Location, rhs: Location) -> (op: Op)
    ensures
        op@ == binary_op(kind, lhs, rhs),
{
    match kind {
        Binary::Add => Op::Add(Add { lhs, rhs }),
        Binary::Sub => Op::Sub(Sub { lhs, rhs }),
        Binary::Compare => Op::Cmp(Cmp { lhs, rhs }),
    }
}

fn mov(dst: Location, src: Location) -> (op: Op)
    ensures
        op@ == mov_op(dst, src),
{
    Op::Mov(Mov { dst, src })
}

fn simple(e: &ast::Expr) -> (b: bool)
    ensures
        b == is_simple(*e),
{
    match e {
        ast::Expr::IntLit(_) => true,
        ast::Expr::Identifier(_) => true,
        _ => false,
    }
}

/// Whether the pass can compute the value of `e`.
pub fn can_lower(e: &ast::Expr) -> (b: bool)
    ensures
        b == lowerable(*e),
    decreases *e,
{
    match e {
        ast::Expr::IntLit(_) => true,
        ast::Expr::Identifier(_) => true,
        ast::Expr::Bexp(b) => {
            let arithmetic = match b.operator {
                ast::Bop::Plus => true,
                ast::Bop::Minus => true,
                _ => false,
            };
            arithmetic && can_lower(&*b.lhs) && can_lower(&*b.rhs)
        },
        _ => false,
    }
}

fn operand_of(st: &Stack, e: &ast::Expr) -> (r: Result<Location, Error>)
    requires
        is_simple(*e),
    ensures
        match operand(item_views(st.items@), *e) {
            Ok(loc) => r matches Ok(l) && l == loc,
            Err(failure) => r matches Err(err) && reports(err, failure),
        },
        st.sound() ==> (r matches Ok(loc) ==> loc_ok(
            st.f@,
            chain(item_views(st.items@)),
            loc,
        )),
{
    match e {
        ast::Expr::IntLit(l) => Ok(Location::Imm64(l.value)),
        ast::Expr::Identifier(id) => match st.lookup(id.value.as_str()) {
            Some(l) => Ok(Location::Local(l)),
            None => Err(unresolved(id)),
        },
        _ => Ok(Location::Register(Reg::RAX)),
    }
}

fn load(st: &mut Stack, e: &ast::Expr) -> (r: Result<(), Error>)
    requires
        old(st).wf(),
        lowerable(*e),
    ensures
        forall|n: nat|
            #![trigger final(st).state(n)]
            #![trigger old(st).state(n)]
            agrees(r, final(st).state(n), loaded(old(st).state(n), *e)),
        r is Ok ==> final(st).wf() && final(st).items == old(st).items,
        r is Ok ==> keeps(final(st).f@, old(st).f@),
        keeps_numbering(final(st).f@, old(st).f@),
        old(st).f@.direct() ==> final(st).f@.direct(),
        old(st).sound() && r is Ok ==> final(st).sound(),
    decreases *e,
{
    let rax = Location::Register(Reg::RAX);
    match e {
        ast::Expr::IntLit(l) => {
            st.emit(mov(rax, Location::Imm64(l.value)));
            Ok(())
        },
        ast::Expr::Identifier(id) => match st.lookup(id.value.as_str()) {
            Some(l) => {
                st.emit(mov(rax, Location::Local(l)));
                Ok(())
            },
            None => Err(unresolved(id)),
        },
        ast::Expr::Bexp(b) => {
            let kind = match b.operator {
                ast::Bop::Minus => Binary::Sub,
                _ => Binary::Add,
            };
            combine(st, kind, b, false)
        },
        _ => Ok(()),
    }
}

fn combine(st: &mut Stack, kind: Binary, b: &ast::Bexp, swap: bool) -> (r: Result<(), Error>)
    requires
        old(st).wf(),
        lowerable(*b.lhs),
        lowerable(*b.rhs),
    ensures
        forall|n: nat|
            #![trigger final(st).state(n)]
            #![trigger old(st).state(n)]
            agrees(r, final(st).state(n), combined(old(st).state(n), kind, *b, swap)),
        r is Ok ==> final(st).wf() && final(st).items == old(st).items,
        r is Ok ==> keeps(final(st).f@, old(st).f@),
        keeps_numbering(final(st).f@, old(st).f@),
        old(st).f@.direct() ==> final(st).f@.direct(),
        old(st).sound() && r is Ok ==> final(st).sound(),
    decreases *b,
{
    let rax = Location::Register(Reg::RAX);
    let first: &ast::Expr = if swap {
        &*b.rhs
    } else {
        &*b.lhs
    };
    let second: &ast::Expr = if swap {
        &*b.lhs
    } else {
        &*b.rhs
    };
    if simple(second) {
        match load(st, first) {
            Err(e) => {
                return Err(e);
            },
            Ok(()) => {},
        }
        match operand_of(st, second) {
            Err(e) => Err(e),
            Ok(loc) => {
                st.emit(binary(kind, rax, loc));
                Ok(())
            },
        }
    } else {
        match load(st, second) {
            Err(e) => {
                return Err(e);
            },
            Ok(()) => {},
        }
        proof {
            reveal_strlit("");
            assert(""@ =~= Seq::<char>::empty());
        }
        let kept = st.declare_local("");
        st.emit(mov(Location::Local(kept), rax));
        match load(st, first) {
            Err(e) => {
                return Err(e);
            },
            Ok(()) => {},
        }
        st.emit(binary(kind, rax, Location::Local(kept)));
        Ok(())
    }
}

fn assign(st: &mut Stack, target: LocalRef, value: &ast::Expr) -> (r: Result<(), Error>)
    requires
        old(st).wf(),
        lowerable(*value),
        old(st).sound() ==> loc_ok(
            old(st).f@,
            chain(item_views(old(st).items@)),
            Location::Local(target),
        ),
    ensures
        forall|n: nat|
            #![trigger final(st).state(n)]
            #![trigger old(st).state(n)]
            agrees(r, final(st).state(n), assigned(old(st).state(n), target, *value)),
        r is Ok ==> final(st).wf() && final(st).items == old(st).items,
        r is Ok ==> keeps(final(st).f@, old(st).f@),
        keeps_numbering(final(st).f@, old(st).f@),
        old(st).f@.direct() ==> final(st).f@.direct(),
        old(st).sound() && r is Ok ==> final(st).sound(),
{
    match value {
        ast::Expr::IntLit(l) => {
            st.emit(mov(Location::Local(target), Location::Imm64(l.value)));
            Ok(())
        },
        _ => {
            match load(st, value) {
                Err(e) => {
                    return Err(e);
                },
                Ok(()) => {},
            }
            st.emit(mov(Location::Local(target), Location::Register(Reg::RAX)));
            Ok(())
        },
    }
}

fn transform_expr(st: &mut Stack, e: &ast::Expr) -> (r: Result<(), Error>)
    requires
        old(st).wf(),
    ensures
        forall|n: nat|
            #![trigger final(st).state(n)]
            #![trigger old(st).state(n)]
            agrees(r, final(st).state(n), expressed(old(st).state(n), *e)),
        r is Ok ==> final(st).wf() && final(st).items == old(st).items,
        r is Ok ==> keeps(final(st).f@, old(st).f@),
        keeps_numbering(final(st).f@, old(st).f@),
        old(st).f@.direct() ==> final(st).f@.direct(),
        old(st).sound() && r is Ok ==> final(st).sound(),
{
    match e {
        ast::Expr::Bexp(b) => match b.operator {
            ast::Bop::Assign => match &*b.lhs {
                ast::Expr::Identifier(id) => match st.lookup(id.value.as_str()) {
                    None => Err(unresolved(id)),
                    Some(target) => {
                        if can_lower(&*b.rhs) {
                            assign(st, target, &*b.rhs)
                        } else {
                            Ok(())
                        }
                    },
                },
                _ => Ok(()),
            },
            _ => Ok(()),
        },
        _ => Ok(()),
    }
}

fn declare(st: &mut Stack, vd: &ast::VDecl)
    requires
        old(st).wf(),
    ensures
        final(st).wf(),
        final(st).items@.len() == old(st).items@.len(),
        final(st).frames() == old(st).frames(),
        keeps(final(st).f@, old(st).f@),
        keeps_numbering(final(st).f@, old(st).f@),
        old(st).f@.direct() ==> final(st).f@.direct(),
        old(st).sound() ==> final(st).sound(),
        forall|n: nat|
            #![trigger final(st).state(n)]
            #![trigger old(st).state(n)]
            final(st).state(n) == declared(old(st).state(n), *vd),
{
    let local = st.declare_local(vd.name.value.as_str());
    st.bind(vd.name.value.as_str(), local);
    proof {
        if st.sound() {
            lemma_current_on_chain(st.state(0));
        }
    }
    match &vd.value {
        Some(ast::Expr::IntLit(l)) => {
            st.emit(mov(Location::Local(local), Location::Imm64(l.value)));
        },
        _ => {},
    }
}

fn transform_return(st: &mut Stack, r: &ast::Return) -> (res: Result<(), Error>)
    requires
        old(st).wf(),
    ensures
        forall|n: nat|
            #![trigger final(st).state(n)]
            #![trigger old(st).state(n)]
            agrees(res, final(st).state(n), returned(old(st).state(n), *r)),
        res is Ok ==> final(st).wf() && final(st).items == old(st).items,
        res is Ok ==> keeps(final(st).f@, old(st).f@),
        keeps_numbering(final(st).f@, old(st).f@),
        old(st).f@.direct() ==> final(st).f@.direct(),
        old(st).sound() && res is Ok ==> final(st).sound(),
{
    match &r.expr {
        None => {
            st.emit(Op::Ret(None));
            Ok(())
        },
        Some(e) => {
            if !can_lower(e) {
                Ok(())
            } else {
                match e {
                    ast::Expr::IntLit(l) => {
                        st.emit(Op::Ret(Some(Location::Imm64(l.value))));
                        Ok(())
                    },
                    _ => {
                        match load(st, e) {
                            Err(e) => {
                                return Err(e);
                            },
                            Ok(()) => {},
                        }
                        st.emit(Op::Ret(Some(Location::Register(Reg::RAX))));
                        Ok(())
                    },
                }
            }
        },
    }
}

fn jump(st: &mut Stack, to_end: bool)
    requires
        old(st).wf(),
    ensures
        final(st).wf(),
        final(st).items == old(st).items,
        keeps(final(st).f@, old(st).f@),
        keeps_numbering(final(st).f@, old(st).f@),
        old(st).f@.direct() ==> final(st).f@.direct(),
        old(st).sound() ==> final(st).sound(),
        forall|n: nat|
            #![trigger final(st).state(n)]
            #![trigger old(st).state(n)]
            final(st).state(n) == jumped(old(st).state(n), to_end),
{
    match st.nearest_loop() {
        Some(l) => {
            let dst = if to_end {
                l.break_label
            } else {
                l.continue_label
            };
            st.emit(Op::Jmp(Jmp { dst }));
        },
        None => {},
    }
}

fn branch_of(e: &ast::Expr) -> (r: Option<Branch>)
    ensures
        r == branch(*e),
{
    match e {
        ast::Expr::Bexp(b) => {
            if can_lower(&*b.lhs) && can_lower(&*b.rhs) {
                match b.operator {
                    ast::Bop::Gt => Some(Branch { strict: true, swap: false }),
                    ast::Bop::Lt => Some(Branch { strict: true, swap: true }),
                    ast::Bop::GtEq => Some(Branch { strict: false, swap: true }),
                    ast::Bop::LtEq => Some(Branch { strict: false, swap: false }),
                    _ => None,
                }
            } else {
                None
            }
        },
        _ => None,
    }
}

fn shortcut_of(st: &Stack, body: &ast::Block) -> (r: Option<LabelRef>)
    ensures
        r == shortcut(item_views(st.items@), *body),
        st.sound() ==> (r matches Some(l) ==> st.f@.has_label(l)),
{
    if body.items.len() == 1 {
        match &body.items[0] {
            ast::Statement::Break => match st.nearest_loop() {
                Some(l) => Some(l.break_label),
                None => None,
            },
            ast::Statement::Continue => match st.nearest_loop() {
                Some(l) => Some(l.continue_label),
                None => None,
            },
            _ => None,
        }
    } else {
        None
    }
}

/// A failure among the first statements of a run is the failure of the
/// whole run.
pub proof fn lemma_failure_ends_the_run(s: State, items: Seq<ast::Statement>, k: int)
    requires
        0 <= k <= items.len(),
        lowered_all(s, items.take(k)) is Err,
    ensures
        lowered_all(s, items) == lowered_all(s, items.take(k)),
    decreases items.len() - k,
{
    if k == items.len() {
        assert(items.take(k) =~= items);
    } else {
        assert(items.take(k + 1).drop_last() =~= items.take(k));
        lemma_failure_ends_the_run(s, items, k + 1);
    }
}

/// Lowers one statement into the current block.
pub fn transform_stat(st: &mut Stack, labels: &mut LabelGen, stat: &ast::Statement) -> (r: Result<
    (),
    Error,
>)
    requires
        old(st).wf(),
    ensures
        agrees(
            r,
            final(st).state(final(labels).upcoming()),
            lowered(old(st).state(old(labels).upcoming()), *stat),
        ),
        r is Ok ==> final(st).wf() && final(st).items@.len() == old(st).items@.len(),
        r is Ok ==> final(st).frames() == old(st).frames(),
        r is Ok ==> keeps(final(st).f@, old(st).f@),
        extends_numbering(
            final(st).f@,
            old(st).f@,
            old(labels).upcoming(),
            final(labels).upcoming(),
        ),
        old(st).f@.direct() ==> final(st).f@.direct(),
        old(st).sound() && r is Ok ==> final(st).sound(),
    decreases *stat,
{
    match stat {
        ast::Statement::VDecl(vd) => {
            declare(st, vd);
            Ok(())
        },
        ast::Statement::Loop(l) => transform_loop(st, labels, l),
        ast::Statement::If(i) => transform_if(st, labels, i),
        ast::Statement::Block(b) => transform_nested(st, labels, b),
        ast::Statement::Break => {
            jump(st, true);
            Ok(())
        },
        ast::Statement::Continue => {
            jump(st, false);
            Ok(())
        },
        ast::Statement::Return(r) => transform_return(st, r),
        ast::Statement::Expression(e) => transform_expr(st, e),
    }
}

/// Lowers a run of statements into the current block, in order, up to the
/// first that fails.
pub fn transform_block(st: &mut Stack, labels: &mut LabelGen, items: &Vec<ast::Statement>) -> (r:
    Result<(), Error>)
    requires
        old(st).wf(),
    ensures
        agrees(
            r,
            final(st).state(final(labels).upcoming()),
            lowered_all(old(st).state(old(labels).upcoming()), items@),
        ),
        r is Ok ==> final(st).wf() && final(st).items@.len() == old(st).items@.len(),
        r is Ok ==> final(st).frames() == old(st).frames(),
        r is Ok ==> keeps(final(st).f@, old(st).f@),
        extends_numbering(
            final(st).f@,
            old(st).f@,
            old(labels).upcoming(),
            final(labels).upcoming(),
        ),
        old(st).f@.direct() ==> final(st).f@.direct(),
        old(st).sound() && r is Ok ==> final(st).sound(),
    decreases *items,
{
    let ghost start = st.state(labels.upcoming());
    let mut i: usize = 0;
    while i < items.len()
        invariant
            i <= items@.len(),
            st.wf(),
            st.items@.len() == old(st).items@.len(),
            st.frames() == old(st).frames(),
            keeps(st.f@, old(st).f@),
            extends_numbering(st.f@, old(st).f@, old(labels).upcoming(), labels.upcoming()),
            old(st).f@.direct() ==> st.f@.direct(),
            old(st).sound() ==> st.sound(),
            start == old(st).state(old(labels).upcoming()),
            lowered_all(start, items@.take(i as int)) == Ok::<State, Failure>(
                st.state(labels.upcoming()),
            ),
        decreases items@.len() - i,
    {
        proof {
            assert(items@.take(i + 1).drop_last() =~= items@.take(i as int));
        }
        match transform_stat(st, labels, &items[i]) {
            Err(e) => {
                proof {
                    lemma_failure_ends_the_run(start, items@, i + 1);
                }
                return Err(e);
            },
            Ok(()) => {
            },
        }
        i = i + 1;
    }
    proof {
        assert(items@.take(i as int) =~= items@);
    }
    Ok(())
}

/// Lowers a block of statements into a block of its own, nested in the
/// current one.
pub fn transform_nested(st: &mut Stack, labels: &mut LabelGen, body: &ast::Block) -> (r: Result<
    (),
    Error,
>)
    requires
        old(st).wf(),
    ensures
        agrees(
            r,
            final(st).state(final(labels).upcoming()),
            nested(old(st).state(old(labels).upcoming()), *body),
        ),
        r is Ok ==> final(st).wf() && final(st).items@.len() == old(st).items@.len(),
        r is Ok ==> final(st).frames() == old(st).frames(),
        r is Ok ==> keeps(final(st).f@, old(st).f@),
        extends_numbering(
            final(st).f@,
            old(st).f@,
            old(labels).upcoming(),
            final(labels).upcoming(),
        ),
        old(st).f@.direct() ==> final(st).f@.direct(),
        old(st).sound() && r is Ok ==> final(st).sound(),
    decreases *body, 0int,
{
    st.open_block();
    match transform_block(st, labels, &body.items) {
        Err(e) => {
            return Err(e);
        },
        Ok(()) => {},
    }
    st.close();
    Ok(())
}

/// Lowers a loop.
pub fn transform_loop(st: &mut Stack, labels: &mut LabelGen, l: &ast::Loop) -> (r: Result<
    (),
    Error,
>)
    requires
        old(st).wf(),
    ensures
        agrees(
            r,
            final(st).state(final(labels).upcoming()),
            looped(old(st).state(old(labels).upcoming()), *l),
        ),
        r is Ok ==> final(st).wf() && final(st).items@.len() == old(st).items@.len(),
        r is Ok ==> final(st).frames() == old(st).frames(),
        r is Ok ==> keeps(final(st).f@, old(st).f@),
        extends_numbering(
            final(st).f@,
            old(st).f@,
            old(labels).upcoming(),
            final(labels).upcoming(),
        ),
        old(st).f@.direct() ==> final(st).f@.direct(),
        old(st).sound() && r is Ok ==> final(st).sound(),
    decreases *l,
{
    if labels.remaining() < 2 {
        return Err(Error::LabelsExhausted);
    }
    let continue_label = st.mint(labels);
    let break_label = st.mint(labels);
    st.enter_loop(Loop { continue_label, break_label });
    st.open_block();
    st.emit(Op::Label(continue_label));
    match transform_block(st, labels, &l.body.items) {
        Err(e) => {
            return Err(e);
        },
        Ok(()) => {},
    }
    st.emit(Op::Jmp(Jmp { dst: continue_label }));
    st.emit(Op::Label(break_label));
    st.close();
    st.close();
    Ok(())
}

fn jump_if(st: &mut Stack, b: &ast::Bexp, swap: bool, target: LabelRef) -> (r: Result<(), Error>)
    requires
        old(st).wf(),
        lowerable(*b.lhs),
        lowerable(*b.rhs),
        old(st).sound() ==> old(st).f@.has_label(target),
    ensures
        forall|n: nat|
            #![trigger final(st).state(n)]
            #![trigger old(st).state(n)]
            agrees(r, final(st).state(n), jumped_if(old(st).state(n), *b, swap, target)),
        r is Ok ==> final(st).wf() && final(st).items == old(st).items,
        r is Ok ==> keeps(final(st).f@, old(st).f@),
        keeps_numbering(final(st).f@, old(st).f@),
        old(st).f@.direct() ==> final(st).f@.direct(),
        old(st).sound() && r is Ok ==> final(st).sound(),
{
    match combine(st, Binary::Compare, b, swap) {
        Err(e) => {
            return Err(e);
        },
        Ok(()) => {},
    }
    st.emit(Op::Jg(Jg { dst: target }));
    Ok(())
}

fn enter_if(st: &mut Stack, labels: &mut LabelGen, b: &ast::Bexp, swap: bool, body: &ast::Block) -> (r:
    Result<(), Error>)
    requires
        old(st).wf(),
        lowerable(*b.lhs),
        lowerable(*b.rhs),
    ensures
        agrees(
            r,
            final(st).state(final(labels).upcoming()),
            entered_if(old(st).state(old(labels).upcoming()), *b, swap, *body),
        ),
        r is Ok ==> final(st).wf() && final(st).items@.len() == old(st).items@.len(),
        r is Ok ==> final(st).frames() == old(st).frames(),
        r is Ok ==> keeps(final(st).f@, old(st).f@),
        extends_numbering(
            final(st).f@,
            old(st).f@,
            old(labels).upcoming(),
            final(labels).upcoming(),
        ),
        old(st).f@.direct() ==> final(st).f@.direct(),
        old(st).sound() && r is Ok ==> final(st).sound(),
    decreases *body, 1int,
{
    if labels.remaining() < 2 {
        return Err(Error::LabelsExhausted);
    }
    let then_label = st.mint(labels);
    let end_label = st.mint(labels);
    match combine(st, Binary::Compare, b, swap) {
        Err(e) => {
            return Err(e);
        },
        Ok(()) => {},
    }
    st.emit(Op::Jg(Jg { dst: then_label }));
    st.emit(Op::Jmp(Jmp { dst: end_label }));
    st.emit(Op::Label(then_label));
    match transform_nested(st, labels, body) {
        Err(e) => {
            return Err(e);
        },
        Ok(()) => {},
    }
    st.emit(Op::Label(end_label));
    Ok(())
}

fn pass_unless(st: &mut Stack, labels: &mut LabelGen, b: &ast::Bexp, swap: bool, body: &ast::Block) -> (r:
    Result<(), Error>)
    requires
        old(st).wf(),
        lowerable(*b.lhs),
        lowerable(*b.rhs),
    ensures
        agrees(
            r,
            final(st).state(final(labels).upcoming()),
            passed_unless(old(st).state(old(labels).upcoming()), *b, swap, *body),
        ),
        r is Ok ==> final(st).wf() && final(st).items@.len() == old(st).items@.len(),
        r is Ok ==> final(st).frames() == old(st).frames(),
        r is Ok ==> keeps(final(st).f@, old(st).f@),
        extends_numbering(
            final(st).f@,
            old(st).f@,
            old(labels).upcoming(),
            final(labels).upcoming(),
        ),
        old(st).f@.direct() ==> final(st).f@.direct(),
        old(st).sound() && r is Ok ==> final(st).sound(),
    decreases *body, 1int,
{
    if labels.remaining() < 1 {
        return Err(Error::LabelsExhausted);
    }
    let end_label = st.mint(labels);
    match combine(st, Binary::Compare, b, swap) {
        Err(e) => {
            return Err(e);
        },
        Ok(()) => {},
    }
    st.emit(Op::Jg(Jg { dst: end_label }));
    match transform_nested(st, labels, body) {
        Err(e) => {
            return Err(e);
        },
        Ok(()) => {},
    }
    st.emit(Op::Label(end_label));
    Ok(())
}

/// Lowers an `if`.
pub fn transform_if(st: &mut Stack, labels: &mut LabelGen, i: &ast::If) -> (r: Result<(), Error>)
    requires
        old(st).wf(),
    ensures
        agrees(
            r,
            final(st).state(final(labels).upcoming()),
            branched(old(st).state(old(labels).upcoming()), *i),
        ),
        r is Ok ==> final(st).wf() && final(st).items@.len() == old(st).items@.len(),
        r is Ok ==> final(st).frames() == old(st).frames(),
        r is Ok ==> keeps(final(st).f@, old(st).f@),
        extends_numbering(
            final(st).f@,
            old(st).f@,
            old(labels).upcoming(),
            final(labels).upcoming(),
        ),
        old(st).f@.direct() ==> final(st).f@.direct(),
        old(st).sound() && r is Ok ==> final(st).sound(),
    decreases *i,
{
    match &i.cond {
        ast::Expr::Bexp(b) => match branch_of(&i.cond) {
            None => Ok(()),
            Some(br) => {
                if br.strict {
                    match shortcut_of(st, &i.body) {
                        Some(target) => jump_if(st, b, br.swap, target),
                        None => enter_if(st, labels, b, br.swap, &i.body),
                    }
                } else {
                    pass_unless(st, labels, b, br.swap, &i.body)
                }
            },
        },
        _ => Ok(()),
    }
}

/// Lowers a declared function.
pub fn transform_fdecl(af: &ast::FDecl, labels: &mut LabelGen) -> (r: Result<Func, Error>)
    ensures
        match lowered_function(*af, old(labels).upcoming()) {
            Ok(s) => r matches Ok(f) && f@ == s.f && final(labels).upcoming() == s.next_label,
            Err(failure) => r matches Err(e) && reports(e, failure),
        },
        r matches Ok(f) ==> f@.wf() && well_nested(f@),
        old(labels).upcoming() <= final(labels).upcoming(),
        r matches Ok(f) ==> f@.numbered(old(labels).upcoming(), final(labels).upcoming()),
        r matches Ok(f) ==> f@.direct(),
{
    let mut f = Func::new(af.name.value.as_str());
    f.public = af.public;
    let mut st = Stack::new(f);
    proof {
        assert(st.f@.numbered(labels.upcoming(), labels.upcoming()));
    }
    match transform_block(&mut st, labels, &af.body.items) {
        Err(e) => {
            return Err(e);
        },
        Ok(()) => {},
    }
    proof {
        lemma_inv_is_well_nested(st.state(0));
    }
    Ok(st.into_inner())
}

/// A failure among the first functions of a unit is the failure of the
/// whole unit.
pub proof fn lemma_failure_ends_the_unit(funs: Seq<ast::FDecl>, next_label: nat, k: int)
    requires
        0 <= k <= funs.len(),
        lowered_unit(funs.take(k), next_label) is Err,
    ensures
        lowered_unit(funs, next_label) == lowered_unit(funs.take(k), next_label),
    decreases funs.len() - k,
{
    if k == funs.len() {
        assert(funs.take(k) =~= funs);
    } else {
        assert(funs.take(k + 1).drop_last() =~= funs.take(k));
        lemma_failure_ends_the_unit(funs, next_label, k + 1);
    }
}

/// Every function of the list can be emitted.
pub open spec fn all_emittable(funcs: Seq<FuncView>) -> bool {
    forall|i: int| 0 <= i < funcs.len() ==> emittable(#[trigger] funcs[i])
}

/// The blocks of every function of the list fit the machine's word
/// together.
pub open spec fn all_fit(funcs: Seq<FuncView>) -> bool {
    forall|i: int| 0 <= i < funcs.len() ==> total_girth(#[trigger] funcs[i]) <= i64::MAX
}

/// The labels of the functions of the list were minted with the numbers
/// from `lo` up to, but not including, `hi`: no two with the same, and those
/// of an earlier function with smaller numbers than those of a later one.
pub open spec fn unit_numbered(funcs: Seq<FuncView>, lo: nat, hi: nat) -> bool {
    &&& forall|i: int| 0 <= i < funcs.len() ==> (#[trigger] funcs[i]).numbered(lo, hi)
    &&& forall|i: int, j: int, a: LabelRef, b: LabelRef|
        #![trigger funcs[i].has_label(a), funcs[j].has_label(b)]
        0 <= i < j < funcs.len() && funcs[i].has_label(a) && funcs[j].has_label(b)
            ==> label_number(funcs[i].label(a)) < label_number(funcs[j].label(b))
}

/// Two labels of a unit whose labels are numbered have different names,
/// whether they belong to the same function or not.
pub proof fn lemma_unit_labels_distinct(
    funcs: Seq<FuncView>,
    lo: nat,
    hi: nat,
    i: int,
    a: LabelRef,
    j: int,
    b: LabelRef,
)
    requires
        unit_numbered(funcs, lo, hi),
        0 <= i < funcs.len(),
        0 <= j < funcs.len(),
        funcs[i].has_label(a),
        funcs[j].has_label(b),
        i != j || a != b,
    ensures
        funcs[i].label(a) != funcs[j].label(b),
{
    if i == j {
        assert(funcs[i].numbered(lo, hi));
    } else if i < j {
        assert(label_number(funcs[i].label(a)) < label_number(funcs[j].label(b)));
    } else {
        assert(label_number(funcs[j].label(b)) < label_number(funcs[i].label(a)));
    }
}

/// Lowers the functions of a unit, in order, up to the first that fails.
/// The functions share the label counter, so that no two labels of the unit
/// have the same name.
pub fn transform_unit(u: &ast::Unit, labels: &mut LabelGen) -> (r: Result<Vec<Func>, Error>)
    ensures
        match lowered_unit(u.funs@, old(labels).upcoming()) {
            Err(failure) => r matches Err(e) && reports(e, failure),
            Ok((funcs, next)) => {
                &&& r matches Ok(funs)
                &&& func_views(funs@) == funcs
                &&& final(labels).upcoming() == next
            },
        },
        r matches Ok(funs) ==> {
            &&& forall|j: int| 0 <= j < funs@.len() ==> well_nested(#[trigger] funs@[j]@)
            &&& forall|j: int| 0 <= j < funs@.len() ==> (#[trigger] funs@[j]@).direct()
            &&& unit_numbered(
                func_views(funs@),
                old(labels).upcoming(),
                final(labels).upcoming(),
            )
        },
{
    let ghost start = labels.upcoming();
    let mut funs: Vec<Func> = Vec::new();
    let mut i: usize = 0;
    proof {
        assert(func_views(funs@) =~= Seq::empty());
    }
    while i < u.funs.len()
        invariant
            i <= u.funs@.len(),
            start == old(labels).upcoming(),
            start <= labels.upcoming(),
            lowered_unit(u.funs@.take(i as int), start) == Ok::<(Seq<FuncView>, nat), Failure>(
                (func_views(funs@), labels.upcoming()),
            ),
            forall|j: int| 0 <= j < funs@.len() ==> well_nested(#[trigger] funs@[j]@),
            forall|j: int| 0 <= j < funs@.len() ==> (#[trigger] funs@[j]@).direct(),
            unit_numbered(func_views(funs@), start, labels.upcoming()),
        decreases u.funs@.len() - i,
    {
        proof {
            assert(u.funs@.take(i + 1).drop_last() =~= u.funs@.take(i as int));
        }
        let ghost done = func_views(funs@);
        let ghost before = labels.upcoming();
        match transform_fdecl(&u.funs[i], labels) {
            Err(e) => {
                proof {
                    lemma_failure_ends_the_unit(u.funs@, start, i + 1);
                }
                return Err(e);
            },
            Ok(f) => {
                let ghost fv = f@;
                funs.push(f);
                proof {
                    let now = func_views(funs@);
                    let after = labels.upcoming();
                    assert(now =~= done.push(fv));
                    assert forall|k: int| 0 <= k < now.len() implies (#[trigger] now[k]).numbered(
                        start,
                        after,
                    ) by {
                        if k < done.len() {
                            lemma_numbered_wider(done[k], start, before, start, after);
                        } else {
                            lemma_numbered_wider(fv, before, after, start, after);
                        }
                    }
                    assert forall|k: int, j: int, a: LabelRef, b: LabelRef|
                        #![trigger now[k].has_label(a), now[j].has_label(b)]
                        0 <= k < j < now.len() && now[k].has_label(a) && now[j].has_label(
                            b,
                        ) implies label_number(now[k].label(a)) < label_number(
                        now[j].label(b),
                    ) by {}
                }
            },
        }
        i = i + 1;
    }
    proof {
        assert(u.funs@.take(i as int) =~= u.funs@);
    }
    Ok(funs)
}

/// Compiles a unit: every function is lowered, in order, and the functions
/// are emitted together. Nothing is emitted unless every function was
/// lowered and can be emitted; and every function that was lowered can be
/// emitted, unless its locals take more room than the machine's word can
/// count.
pub fn transform(u: &ast::Unit, labels: &mut LabelGen) -> (r: Result<String, Error>)
    ensures
        match lowered_unit(u.funs@, old(labels).upcoming()) {
            Err(failure) => r matches Err(e) && reports(e, failure),
            Ok((funcs, next)) => if all_emittable(funcs) {
                r matches Ok(text) && text@ == unit_text(funcs) && final(labels).upcoming() == next
            } else {
                r matches Err(e) && e is FrameTooLarge && !all_fit(funcs)
            },
        },
{
    let funs = match transform_unit(u, labels) {
        Err(e) => {
            return Err(e);
        },
        Ok(funs) => funs,
    };
    let mut k: usize = 0;
    while k < funs.len()
        invariant
            k <= funs@.len(),
            lowered_unit(u.funs@, old(labels).upcoming()) == Ok::<(Seq<FuncView>, nat), Failure>(
                (func_views(funs@), labels.upcoming()),
            ),
            forall|j: int| 0 <= j < funs@.len() ==> well_nested(#[trigger] funs@[j]@),
            forall|j: int| 0 <= j < k ==> emittable(#[trigger] funs@[j]@),
        decreases funs@.len() - k,
    {
        if !is_emittable(&funs[k]) {
            proof {
                let funcs = func_views(funs@);
                if total_girth(funcs[k as int]) <= i64::MAX {
                    lemma_well_nested_is_emittable(funcs[k as int]);
                }
            }
            return Err(Error::FrameTooLarge);
        }
        k = k + 1;
    }
    proof {
        assert forall|j: int| 0 <= j < func_views(funs@).len() implies emittable(
            #[trigger] func_views(funs@)[j],
        ) by {}
    }
    Ok(emit_all(&funs))
}

} // verus!

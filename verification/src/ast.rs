//! The statement tree that the lowering pass consumes.

use crate::source::Span;
use vstd::prelude::*;
use vstd::utf8::encode_utf8;

verus! {

/// A compilation unit: its functions, in source order.
#[derive(Debug)]
pub struct Unit {
    pub funs: Vec<FDecl>,
}

#[derive(Debug)]
pub enum UnitItem {
    FDecl(FDecl),
}

/// An identifier, and where it stands in the source.
#[derive(Debug)]
pub struct Id {
    pub loc: Span,
    pub value: String,
}

#[derive(Debug)]
pub struct FDecl {
    pub name: Id,
    pub params: Vec<Param>,
    pub body: Block,
    pub public: bool,
}

#[derive(Debug)]
pub struct Param {
    pub name: Id,
    pub typ: TypeRef,
}

#[derive(Debug)]
pub struct Block {
    pub items: Vec<Statement>,
}

#[derive(Debug)]
pub struct Loop {
    pub body: Block,
}

#[derive(Debug)]
pub struct If {
    pub cond: Expr,
    pub body: Block,
}

#[derive(Debug)]
pub enum Statement {
    Block(Block),
    Loop(Loop),
    If(If),
    Continue,
    Break,
    VDecl(VDecl),
    Return(Return),
    Expression(Expr),
}

#[derive(Debug)]
pub struct Return {
    pub expr: Option<Expr>,
}

#[derive(Debug)]
pub struct VDecl {
    pub name: Id,
    pub typ: Option<TypeRef>,
    pub value: Option<Expr>,
}

#[derive(Debug)]
pub enum Expr {
    Call(Call),
    Block(Block),
    Bexp(Bexp),
    Identifier(Id),
    IntLit(IntLit),
    FloatLit(FloatLit),
}

#[derive(Debug)]
pub struct IntLit {
    pub loc: Span,
    pub value: i64,
}

/// A floating-point literal. Its value is kept as the bit pattern of the
/// double that the literal denotes.
#[derive(Debug)]
pub struct FloatLit {
    pub loc: Span,
    pub bits: u64,
}

#[derive(Debug)]
pub struct TypeRef {
    pub id: Id,
}

#[derive(Debug)]
pub struct Call {
    pub target: Box<Expr>,
    pub args: Vec<Expr>,
}

#[derive(Debug)]
pub struct Bexp {
    pub operator: Bop,
    pub lhs: Box<Expr>,
    pub rhs: Box<Expr>,
}

#[derive(Debug, Clone, Copy, PartialEq, Eq, Structural)]
pub enum Bop {
    Plus,
    Minus,
    Mul,
    Div,
    Gt,
    GtEq,
    Lt,
    LtEq,
    Assign,
}

/// The operator of a compound assignment.
#[derive(Debug, Clone, Copy, PartialEq, Eq, Structural)]
pub enum AssOp {
    Plus,
    Minus,
    Mul,
    Div,
}

/// A binary operator as it is written: plain, or fused with an assignment.
#[derive(Debug, Clone, Copy, PartialEq, Eq, Structural)]
pub enum BopEx {
    Base(Bop),
    Ass(AssOp),
}

impl Clone for Id {
    fn clone(&self) -> (id: Self)
        ensures
            id == *self,
    {
        Id { loc: self.loc.clone(), value: self.value.clone() }
    }
}

impl Clone for IntLit {
    fn clone(&self) -> (l: Self)
        ensures
            l == *self,
    {
        IntLit { loc: self.loc.clone(), value: self.value }
    }
}

impl Clone for FloatLit {
    fn clone(&self) -> (l: Self)
        ensures
            l == *self,
    {
        FloatLit { loc: self.loc.clone(), bits: self.bits }
    }
}

impl Clone for TypeRef {
    fn clone(&self) -> (t: Self)
        ensures
            t == *self,
    {
        TypeRef { id: self.id.clone() }
    }
}

impl Clone for Param {
    fn clone(&self) -> (p: Self)
        ensures
            p == *self,
    {
        Param { name: self.name.clone(), typ: self.typ.clone() }
    }
}

fn copy_params(v: &Vec<Param>) -> (copies: Vec<Param>)
    ensures
        copies@ == v@,
{
    let mut copies: Vec<Param> = Vec::new();
    let mut i: usize = 0;
    while i < v.len()
        invariant
            i <= v@.len(),
            copies@ == v@.take(i as int),
        decreases v@.len() - i,
    {
        copies.push(v[i].clone());
        i = i + 1;
    }
    copies
}

/// An expression that holds no block and no call: it is built from
/// literals, identifiers and operators alone.
pub open spec fn flat(e: Expr) -> bool
    decreases e,
{
    match e {
        Expr::Call(_) => false,
        Expr::Block(_) => false,
        Expr::Bexp(b) => flat(*b.lhs) && flat(*b.rhs),
        Expr::Identifier(_) => true,
        Expr::IntLit(_) => true,
        Expr::FloatLit(_) => true,
    }
}

/// Two expressions are alike: they are the same tree, with equal leaves.
pub open spec fn alike(a: Expr, b: Expr) -> bool
    decreases a,
{
    match a {
        Expr::Call(x) => b matches Expr::Call(y) && alike(*x.target, *y.target) && all_alike(
            x.args@,
            y.args@,
        ),
        Expr::Block(x) => b matches Expr::Block(y) && statements_alike(x.items@, y.items@),
        Expr::Bexp(x) => b matches Expr::Bexp(y) && x.operator == y.operator && alike(
            *x.lhs,
            *y.lhs,
        ) && alike(*x.rhs, *y.rhs),
        Expr::Identifier(x) => b == a,
        Expr::IntLit(x) => b == a,
        Expr::FloatLit(x) => b == a,
    }
}

/// Two runs of expressions are alike: as long as each other, and alike
/// place by place.
pub open spec fn all_alike(a: Seq<Expr>, b: Seq<Expr>) -> bool
    decreases a,
{
    a.len() == b.len() && (a.len() == 0 || (alike(a.last(), b.last()) && all_alike(
        a.drop_last(),
        b.drop_last(),
    )))
}

/// Two optional expressions are alike.
pub open spec fn maybe_alike(a: Option<Expr>, b: Option<Expr>) -> bool
    decreases a,
{
    match a {
        Some(x) => b matches Some(y) && alike(x, y),
        None => b is None,
    }
}

/// Two statements are alike: they are the same tree, with equal leaves.
pub open spec fn statement_alike(a: Statement, b: Statement) -> bool
    decreases a,
{
    match a {
        Statement::Block(x) => b matches Statement::Block(y) && statements_alike(
            x.items@,
            y.items@,
        ),
        Statement::Loop(x) => b matches Statement::Loop(y) && statements_alike(
            x.body.items@,
            y.body.items@,
        ),
        Statement::If(x) => b matches Statement::If(y) && alike(x.cond, y.cond)
            && statements_alike(x.body.items@, y.body.items@),
        Statement::Continue => b is Continue,
        Statement::Break => b is Break,
        Statement::VDecl(x) => b matches Statement::VDecl(y) && x.name == y.name && x.typ == y.typ
            && maybe_alike(x.value, y.value),
        Statement::Return(x) => b matches Statement::Return(y) && maybe_alike(x.expr, y.expr),
        Statement::Expression(x) => b matches Statement::Expression(y) && alike(x, y),
    }
}

/// Two runs of statements are alike: as long as each other, and alike
/// place by place.
pub open spec fn statements_alike(a: Seq<Statement>, b: Seq<Statement>) -> bool
    decreases a,
{
    a.len() == b.len() && (a.len() == 0 || (statement_alike(a.last(), b.last())
        && statements_alike(a.drop_last(), b.drop_last())))
}

/// Two declared functions are alike.
pub open spec fn decl_alike(a: FDecl, b: FDecl) -> bool {
    &&& a.name == b.name
    &&& a.params@ == b.params@
    &&& a.public == b.public
    &&& statements_alike(a.body.items@, b.body.items@)
}

/// A flat expression is equal to whatever is like it.
pub proof fn lemma_alike_flat(a: Expr, b: Expr)
    requires
        flat(a),
        alike(a, b),
    ensures
        a == b,
    decreases a,
{
    match a {
        Expr::Bexp(x) => {
            let y = b->Bexp_0;
            lemma_alike_flat(*x.lhs, *y.lhs);
            lemma_alike_flat(*x.rhs, *y.rhs);
        },
        _ => {},
    }
}

fn copy_expr(e: &Expr) -> (copy: Expr)
    ensures
        alike(*e, copy),
        flat(*e) ==> copy == *e,
    decreases *e,
{
    let copy = match e {
        Expr::Call(c) => Expr::Call(
            Call { target: Box::new(copy_expr(&*c.target)), args: copy_exprs(&c.args) },
        ),
        Expr::Block(b) => Expr::Block(Block { items: copy_statements(&b.items) }),
        Expr::Bexp(b) => Expr::Bexp(
            Bexp {
                operator: b.operator,
                lhs: Box::new(copy_expr(&*b.lhs)),
                rhs: Box::new(copy_expr(&*b.rhs)),
            },
        ),
        Expr::Identifier(id) => Expr::Identifier(id.clone()),
        Expr::IntLit(l) => Expr::IntLit(l.clone()),
        Expr::FloatLit(l) => Expr::FloatLit(l.clone()),
    };
    proof {
        if flat(*e) {
            lemma_alike_flat(*e, copy);
        }
    }
    copy
}

fn copy_maybe(e: &Option<Expr>) -> (copy: Option<Expr>)
    ensures
        maybe_alike(*e, copy),
    decreases *e,
{
    match e {
        Some(x) => Some(copy_expr(x)),
        None => None,
    }
}

fn copy_exprs(v: &Vec<Expr>) -> (copies: Vec<Expr>)
    ensures
        all_alike(v@, copies@),
    decreases *v,
{
    let mut copies: Vec<Expr> = Vec::new();
    let mut i: usize = 0;
    while i < v.len()
        invariant
            i <= v@.len(),
            all_alike(v@.take(i as int), copies@),
        decreases v@.len() - i,
    {
        let ghost before = copies@;
        copies.push(copy_expr(&v[i]));
        proof {
            assert(copies@.drop_last() =~= before);
            assert(v@.take(i + 1).drop_last() =~= v@.take(i as int));
        }
        i = i + 1;
    }
    proof {
        assert(v@.take(i as int) =~= v@);
    }
    copies
}

fn copy_statement(s: &Statement) -> (copy: Statement)
    ensures
        statement_alike(*s, copy),
    decreases *s,
{
    match s {
        Statement::Block(b) => Statement::Block(Block { items: copy_statements(&b.items) }),
        Statement::Loop(l) => Statement::Loop(
            Loop { body: Block { items: copy_statements(&l.body.items) } },
        ),
        Statement::If(i) => Statement::If(
            If { cond: copy_expr(&i.cond), body: Block { items: copy_statements(&i.body.items) } },
        ),
        Statement::Continue => Statement::Continue,
        Statement::Break => Statement::Break,
        Statement::VDecl(vd) => Statement::VDecl(
            VDecl {
                name: vd.name.clone(),
                typ: match &vd.typ {
                    Some(t) => Some(t.clone()),
                    None => None,
                },
                value: copy_maybe(&vd.value),
            },
        ),
        Statement::Return(r) => Statement::Return(Return { expr: copy_maybe(&r.expr) }),
        Statement::Expression(e) => Statement::Expression(copy_expr(e)),
    }
}

fn copy_statements(v: &Vec<Statement>) -> (copies: Vec<Statement>)
    ensures
        statements_alike(v@, copies@),
    decreases *v,
{
    let mut copies: Vec<Statement> = Vec::new();
    let mut i: usize = 0;
    while i < v.len()
        invariant
            i <= v@.len(),
            statements_alike(v@.take(i as int), copies@),
        decreases v@.len() - i,
    {
        let ghost before = copies@;
        copies.push(copy_statement(&v[i]));
        proof {
            assert(copies@.drop_last() =~= before);
            assert(v@.take(i + 1).drop_last() =~= v@.take(i as int));
        }
        i = i + 1;
    }
    proof {
        assert(v@.take(i as int) =~= v@);
    }
    copies
}

impl Clone for Expr {
    /// A copy of the expression. The copy of a flat expression is equal to
    /// it.
    fn clone(&self) -> (copy: Self)
        ensures
            alike(*self, copy),
            flat(*self) ==> copy == *self,
    {
        copy_expr(self)
    }
}

impl Clone for Statement {
    fn clone(&self) -> (copy: Self)
        ensures
            statement_alike(*self, copy),
    {
        copy_statement(self)
    }
}

impl Clone for Block {
    fn clone(&self) -> (copy: Self)
        ensures
            statements_alike(self.items@, copy.items@),
    {
        Block { items: copy_statements(&self.items) }
    }
}

impl Clone for Loop {
    fn clone(&self) -> (copy: Self)
        ensures
            statements_alike(self.body.items@, copy.body.items@),
    {
        Loop { body: self.body.clone() }
    }
}

impl Clone for If {
    fn clone(&self) -> (copy: Self)
        ensures
            alike(self.cond, copy.cond),
            statements_alike(self.body.items@, copy.body.items@),
    {
        If { cond: copy_expr(&self.cond), body: self.body.clone() }
    }
}

impl Clone for Return {
    fn clone(&self) -> (copy: Self)
        ensures
            maybe_alike(self.expr, copy.expr),
    {
        Return { expr: copy_maybe(&self.expr) }
    }
}

impl Clone for VDecl {
    fn clone(&self) -> (copy: Self)
        ensures
            copy.name == self.name,
            copy.typ == self.typ,
            maybe_alike(self.value, copy.value),
    {
        VDecl {
            name: self.name.clone(),
            typ: match &self.typ {
                Some(t) => Some(t.clone()),
                None => None,
            },
            value: copy_maybe(&self.value),
        }
    }
}

impl Clone for Call {
    fn clone(&self) -> (copy: Self)
        ensures
            alike(*self.target, *copy.target),
            all_alike(self.args@, copy.args@),
    {
        Call { target: Box::new(copy_expr(&*self.target)), args: copy_exprs(&self.args) }
    }
}

impl Clone for Bexp {
    fn clone(&self) -> (copy: Self)
        ensures
            copy.operator == self.operator,
            alike(*self.lhs, *copy.lhs),
            alike(*self.rhs, *copy.rhs),
            flat(*self.lhs) && flat(*self.rhs) ==> copy == *self,
    {
        Bexp {
            operator: self.operator,
            lhs: Box::new(copy_expr(&*self.lhs)),
            rhs: Box::new(copy_expr(&*self.rhs)),
        }
    }
}

impl Clone for FDecl {
    fn clone(&self) -> (copy: Self)
        ensures
            decl_alike(*self, copy),
    {
        FDecl {
            name: self.name.clone(),
            params: copy_params(&self.params),
            body: self.body.clone(),
            public: self.public,
        }
    }
}

impl Clone for UnitItem {
    fn clone(&self) -> (copy: Self)
        ensures
            decl_alike(declared(*self), declared(copy)),
    {
        match self {
            UnitItem::FDecl(f) => UnitItem::FDecl(f.clone()),
        }
    }
}

impl Clone for Unit {
    fn clone(&self) -> (copy: Self)
        ensures
            copy.funs@.len() == self.funs@.len(),
            forall|i: int|
                0 <= i < self.funs@.len() ==> decl_alike(self.funs@[i], #[trigger] copy.funs@[i]),
    {
        let mut funs: Vec<FDecl> = Vec::new();
        let mut i: usize = 0;
        while i < self.funs.len()
            invariant
                i <= self.funs@.len(),
                funs@.len() == i,
                forall|k: int| 0 <= k < i ==> decl_alike(self.funs@[k], #[trigger] funs@[k]),
            decreases self.funs@.len() - i,
        {
            funs.push(self.funs[i].clone());
            i = i + 1;
        }
        Unit { funs }
    }
}

/// The function that a unit item declares.
pub open spec fn declared(item: UnitItem) -> FDecl {
    match item {
        UnitItem::FDecl(f) => f,
    }
}

impl Unit {
    /// The unit of the functions that `items` declare, in their order.
    pub fn new(items: Vec<UnitItem>) -> (u: Unit)
        ensures
            u.funs@ == items@.map_values(|i: UnitItem| declared(i)),
    {
        let ghost all = items@;
        let mut rest = items;
        let mut back: Vec<FDecl> = Vec::new();
        while rest.len() > 0
            invariant
                rest@.len() + back@.len() == all.len(),
                rest@ == all.take(rest@.len() as int),
                forall|k: int|
                    0 <= k < back@.len() ==> back@[k] == declared(
                        #[trigger] all[all.len() - 1 - k],
                    ),
            decreases rest@.len(),
        {
            let item = rest.pop();
            match item {
                Some(UnitItem::FDecl(f)) => {
                    back.push(f);
                },
                None => {},
            }
        }
        let mut funs: Vec<FDecl> = Vec::new();
        while back.len() > 0
            invariant
                back@.len() + funs@.len() == all.len(),
                forall|k: int|
                    0 <= k < back@.len() ==> back@[k] == declared(
                        #[trigger] all[all.len() - 1 - k],
                    ),
                forall|k: int| 0 <= k < funs@.len() ==> funs@[k] == declared(#[trigger] all[k]),
            decreases back@.len(),
        {
            assert(back@[back@.len() - 1] == declared(all[all.len() - 1 - (back@.len() - 1)]));
            let f = back.pop();
            match f {
                Some(f) => {
                    funs.push(f);
                },
                None => {},
            }
        }
        Unit { funs }
    }
}

impl Id {
    /// The identifier that `loc` covers.
    pub fn new(loc: Span) -> (id: Id)
        requires
            loc.wf(),
        ensures
            id.loc == loc,
            encode_utf8(id.value@) == loc.bytes(),
    {
        let value = loc.slice().to_owned();
        Id { loc, value }
    }
}

impl Bop {
    /// The expression that applies this operator to `lhs` and `rhs`.
    pub fn as_expr(self, lhs: Box<Expr>, rhs: Box<Expr>) -> (e: Bexp)
        ensures
            e == (Bexp { operator: self, lhs, rhs }),
    {
        Bexp { lhs, operator: self, rhs }
    }
}

impl AssOp {
    /// The operator that a compound assignment applies before it assigns.
    pub open spec fn operator(self) -> Bop {
        match self {
            AssOp::Plus => Bop::Plus,
            AssOp::Minus => Bop::Minus,
            AssOp::Mul => Bop::Mul,
            AssOp::Div => Bop::Div,
        }
    }

    pub fn as_operator(self) -> (op: Bop)
        ensures
            op == self.operator(),
    {
        match self {
            AssOp::Plus => Bop::Plus,
            AssOp::Minus => Bop::Minus,
            AssOp::Mul => Bop::Mul,
            AssOp::Div => Bop::Div,
        }
    }
}

impl BopEx {
    /// The expression that applies this operator to `lhs` and `rhs`. A
    /// compound assignment becomes the assignment, to `lhs`, of its operator
    /// applied to a copy of `lhs` and to `rhs`. The copy of a flat target,
    /// such as a variable, is equal to the target.
    pub fn as_expr(self, lhs: Box<Expr>, rhs: Box<Expr>) -> (e: Bexp)
        ensures
            self matches BopEx::Base(operator) ==> e == (Bexp { operator, lhs, rhs }),
            self matches BopEx::Ass(operator) ==> {
                &&& e.operator == Bop::Assign
                &&& e.lhs == lhs
                &&& *e.rhs matches Expr::Bexp(inner)
                &&& inner.operator == operator.operator()
                &&& inner.rhs == rhs
                &&& alike(*lhs, *inner.lhs)
                &&& flat(*lhs) ==> inner.lhs == lhs
            },
    {
        match self {
            BopEx::Base(operator) => operator.as_expr(lhs, rhs),
            BopEx::Ass(operator) => {
                let copy = Box::new(copy_expr(&*lhs));
                Bexp {
                    lhs,
                    operator: Bop::Assign,
                    rhs: Box::new(Expr::Bexp(operator.as_operator().as_expr(copy, rhs))),
                }
            },
        }
    }
}

} // verus!

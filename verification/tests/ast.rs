use morning::ast::{
    AssOp, Block, Bop, BopEx, Expr, FDecl, Id, IntLit, Statement, Unit, UnitItem,
};
use morning::source::{Source, Span};

fn ident(name: &str) -> Id {
    let source = Source::from_string(name);
    Id::new(Span { source, offset: 0, len: name.len() })
}

fn decl(name: &str) -> FDecl {
    FDecl { name: ident(name), params: Vec::new(), body: Block { items: Vec::new() }, public: false }
}

#[test]
fn a_unit_keeps_the_order_of_its_items() {
    let u = Unit::new(vec![
        UnitItem::FDecl(decl("a")),
        UnitItem::FDecl(decl("b")),
        UnitItem::FDecl(decl("c")),
    ]);
    let names: Vec<&str> = u.funs.iter().map(|f| f.name.value.as_str()).collect();
    assert_eq!(names, vec!["a", "b", "c"]);
    assert!(Unit::new(Vec::new()).funs.is_empty());
}

#[test]
fn an_identifier_is_the_text_of_its_span() {
    let source = Source::from_string("let total = 0;");
    let id = Id::new(Span { source: source.clone(), offset: 4, len: 5 });
    assert_eq!(id.value, "total");
    assert_eq!(id.loc.offset, 4);
    assert_eq!(id.loc.len, 5);
    let copy = id.clone();
    assert_eq!(copy.value, "total");
    assert_eq!((copy.loc.offset, copy.loc.len), (4, 5));
}

#[test]
fn compound_operators_name_their_plain_operator() {
    assert_eq!(AssOp::Plus.as_operator(), Bop::Plus);
    assert_eq!(AssOp::Minus.as_operator(), Bop::Minus);
    assert_eq!(AssOp::Mul.as_operator(), Bop::Mul);
    assert_eq!(AssOp::Div.as_operator(), Bop::Div);
}

fn number(value: i64) -> Box<Expr> {
    Box::new(Expr::IntLit(IntLit {
        loc: Span { source: Source::from_string(""), offset: 0, len: 0 },
        value,
    }))
}

#[test]
fn a_plain_operator_applies_to_both_sides() {
    let e = Bop::Lt.as_expr(Box::new(Expr::Identifier(ident("a"))), number(3));
    assert_eq!(e.operator, Bop::Lt);
    assert!(matches!(&*e.lhs, Expr::Identifier(id) if id.value == "a"));
    assert!(matches!(&*e.rhs, Expr::IntLit(l) if l.value == 3));
    let e = BopEx::Base(Bop::Assign).as_expr(Box::new(Expr::Identifier(ident("a"))), number(4));
    assert_eq!(e.operator, Bop::Assign);
    assert!(matches!(&*e.lhs, Expr::Identifier(id) if id.value == "a"));
    assert!(matches!(&*e.rhs, Expr::IntLit(l) if l.value == 4));
}

#[test]
fn a_compound_assignment_is_an_assignment_of_the_operation() {
    let e = BopEx::Ass(AssOp::Div).as_expr(Box::new(Expr::Identifier(ident("total"))), number(2));
    assert_eq!(e.operator, Bop::Assign);
    assert!(matches!(&*e.lhs, Expr::Identifier(id) if id.value == "total"));
    match &*e.rhs {
        Expr::Bexp(inner) => {
            assert_eq!(inner.operator, Bop::Div);
            assert!(matches!(&*inner.lhs, Expr::Identifier(id) if id.value == "total" && id.loc.len == 5));
            assert!(matches!(&*inner.rhs, Expr::IntLit(l) if l.value == 2));
        }
        other => panic!("{:?}", other),
    }
}

#[test]
fn copies_of_a_tree_are_deep() {
    let body = Block {
        items: vec![
            Statement::Break,
            Statement::Expression(Expr::Bexp(
                BopEx::Ass(AssOp::Plus).as_expr(Box::new(Expr::Identifier(ident("x"))), number(1)),
            )),
        ],
    };
    let tree = Statement::Loop(morning::ast::Loop { body });
    let copy = tree.clone();
    assert_eq!(format!("{:?}", copy), format!("{:?}", tree));
    let text = format!("{:?}", copy);
    assert!(text.contains("Break"));
    assert!(text.contains("Assign"));
    assert!(text.contains("Plus"));
}

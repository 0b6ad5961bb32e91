use morning::diag::{Color, DiagnosticBuilder};
use morning::source::{Position, Source, Span};
use std::rc::Rc;

fn span(source: &Rc<Source>, offset: usize, len: usize) -> Span {
    Span { source: source.clone(), offset, len }
}

#[test]
fn a_source_from_a_string_has_no_file() {
    let s = Source::from_string("fn main() {}");
    assert_eq!(s.input, "fn main() {}");
    assert_eq!(s.name(), "<memory>");
    let t = Source::new(String::from("a.mor"), String::from("x"));
    assert_eq!(t.name(), "a.mor");
    assert_eq!(t.name, "a.mor");
    assert_eq!(t.input, "x");
}

#[test]
fn slices_are_the_bytes_of_the_span() {
    let s = Source::from_string("let abc = 12;\nabc = 3;");
    assert_eq!(span(&s, 4, 3).slice(), "abc");
    assert_eq!(span(&s, 0, 3).slice(), "let");
    assert_eq!(span(&s, 14, 3).slice(), "abc");
    assert_eq!(span(&s, 22, 0).slice(), "");
    assert_eq!(span(&s, 0, 22).slice(), "let abc = 12;\nabc = 3;");
    assert_eq!(span(&s, 7, 0).slice(), "");
}

#[test]
fn spans_must_lie_on_character_boundaries() {
    let s = Source::from_string("a\u{e9}b");
    assert_eq!(s.input.len(), 4);
    assert!(span(&s, 0, 1).is_valid());
    assert!(span(&s, 1, 2).is_valid());
    assert!(span(&s, 3, 1).is_valid());
    assert!(span(&s, 0, 4).is_valid());
    assert!(span(&s, 4, 0).is_valid());
    assert!(!span(&s, 2, 1).is_valid());
    assert!(!span(&s, 1, 1).is_valid());
    assert!(!span(&s, 0, 2).is_valid());
    assert!(!span(&s, 0, 5).is_valid());
    assert!(!span(&s, 5, 0).is_valid());
    assert!(!span(&s, 3, usize::MAX).is_valid());
    assert_eq!(span(&s, 1, 2).slice(), "\u{e9}");
}

#[test]
fn positions_count_lines_and_columns_from_zero() {
    let s = Source::from_string("ab\ncd\n\nxyz");
    let at = |offset: usize| {
        let p = span(&s, offset, 1).position();
        (p.line, p.column)
    };
    assert_eq!(at(0), (0, 0));
    assert_eq!(at(1), (0, 1));
    assert_eq!(at(2), (0, 2));
    assert_eq!(at(3), (1, 0));
    assert_eq!(at(4), (1, 1));
    assert_eq!(at(5), (1, 2));
    assert_eq!(at(6), (2, 0));
    assert_eq!(at(7), (3, 0));
    assert_eq!(at(9), (3, 2));
    assert_eq!(at(10), (3, 3));
    assert_eq!(at(12), (3, 5));
}

#[test]
fn a_position_keeps_its_span() {
    let s = Source::from_string("one\ntwo");
    let sp = span(&s, 4, 3);
    let p = sp.position();
    assert_eq!(p.span.offset, 4);
    assert_eq!(p.span.len, 3);
    assert!(Rc::ptr_eq(&p.span.source, &s));
    assert_eq!(p.span.slice(), "two");
    assert_eq!(p.line, 1);
    assert_eq!(p.column, 0);
}

#[test]
fn copies_of_a_span_share_the_source() {
    let s = Source::from_string("shared");
    assert_eq!(Rc::strong_count(&s), 1);
    let a = span(&s, 1, 2);
    assert_eq!(Rc::strong_count(&s), 2);
    let b = a.clone();
    assert_eq!(Rc::strong_count(&s), 3);
    assert!(Rc::ptr_eq(&a.source, &b.source));
    assert_eq!((b.offset, b.len), (1, 2));
    let p = b.position();
    let q = p.clone();
    assert_eq!(Rc::strong_count(&s), 5);
    assert_eq!((q.line, q.column, q.span.offset, q.span.len), (0, 1, 1, 2));
    drop(a);
    drop(b);
    drop(p);
    drop(q);
    assert_eq!(Rc::strong_count(&s), 1);
}

fn somewhere() -> Position {
    let s = Source::from_string("a\nbc");
    span(&s, 3, 1).position()
}

#[test]
fn a_builder_starts_blue_and_empty() {
    let b = DiagnosticBuilder::new(somewhere());
    assert_eq!(b.caret_color, Color::Blue);
    assert_eq!(b.prefix, "");
    assert!(b.message.is_none());
    let d = b.build();
    assert_eq!(d.message, "");
    assert_eq!(d.prefix, "");
    assert_eq!(d.caret_color, Color::Blue);
    assert_eq!((d.pos.line, d.pos.column), (1, 1));
}

#[test]
fn a_builder_keeps_what_it_is_given() {
    let d = DiagnosticBuilder::new(somewhere())
        .caret_color(Color::Red)
        .prefix("  | ")
        .message(String::from("expected ';'"))
        .build();
    assert_eq!(d.caret_color, Color::Red);
    assert_eq!(d.prefix, "  | ");
    assert_eq!(d.message, "expected ';'");
    assert_eq!((d.pos.line, d.pos.column, d.pos.span.offset, d.pos.span.len), (1, 1, 3, 1));
}

#[test]
fn remarks_are_blue_and_errors_are_red() {
    let p = somewhere();
    let info = p.diag_info(String::from("In loop")).build();
    assert_eq!(info.caret_color, Color::Blue);
    assert_eq!(info.message, "In loop");
    assert_eq!(info.pos.span.offset, 3);
    let err = p.diag_err(String::from("bad")).build();
    assert_eq!(err.caret_color, Color::Red);
    assert_eq!(err.message, "bad");
    assert_eq!((err.pos.line, err.pos.column), (1, 1));
    assert_eq!(err.prefix, "");
}

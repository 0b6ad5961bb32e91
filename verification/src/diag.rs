//! Diagnostics: a message and the place in the source that it is about. How
//! one is shown is left to whoever receives it.

use crate::source::Position;
use vstd::prelude::*;

verus! {

/// The colour of the caret under the place that a diagnostic is about.
#[derive(Debug, Clone, Copy, PartialEq, Eq, Structural)]
pub enum Color {
    Blue,
    Red,
}

/// A message about a place in the source.
#[derive(Debug)]
pub struct Diagnostic {
    pub pos: Position,
    pub caret_color: Color,
    pub prefix: String,
    pub message: String,
}

/// A diagnostic in the making.
#[derive(Debug)]
pub struct DiagnosticBuilder {
    pub pos: Position,
    pub caret_color: Color,
    pub prefix: String,
    pub message: Option<String>,
}

impl DiagnosticBuilder {
    /// A diagnostic about `pos`, with a blue caret, no prefix and no message
    /// yet.
    pub fn new(pos: Position) -> (b: Self)
        ensures
            b.pos == pos,
            b.caret_color == Color::Blue,
            b.prefix@ == Seq::<char>::empty(),
            b.message is None,
    {
        DiagnosticBuilder { pos, caret_color: Color::Blue, prefix: String::new(), message: None }
    }

    pub fn caret_color(self, caret_color: Color) -> (b: Self)
        ensures
            b.pos == self.pos,
            b.caret_color == caret_color,
            b.prefix == self.prefix,
            b.message == self.message,
    {
        DiagnosticBuilder {
            pos: self.pos,
            caret_color,
            prefix: self.prefix,
            message: self.message,
        }
    }

    pub fn prefix(self, prefix: &str) -> (b: Self)
        ensures
            b.pos == self.pos,
            b.caret_color == self.caret_color,
            b.prefix@ == prefix@,
            b.message == self.message,
    {
        DiagnosticBuilder {
            pos: self.pos,
            caret_color: self.caret_color,
            prefix: prefix.to_owned(),
            message: self.message,
        }
    }

    pub fn message(self, message: String) -> (b: Self)
        ensures
            b.pos == self.pos,
            b.caret_color == self.caret_color,
            b.prefix == self.prefix,
            b.message == Some(message),
    {
        DiagnosticBuilder {
            pos: self.pos,
            caret_color: self.caret_color,
            prefix: self.prefix,
            message: Some(message),
        }
    }

    /// The finished diagnostic. Without a message, its message is empty.
    pub fn build(self) -> (d: Diagnostic)
        ensures
            d.pos == self.pos,
            d.caret_color == self.caret_color,
            d.prefix == self.prefix,
            d.message@ == (match self.message {
                Some(m) => m@,
                None => Seq::<char>::empty(),
            }),
    {
        let message = match self.message {
            Some(m) => m,
            None => String::new(),
        };
        Diagnostic {
            pos: self.pos,
            caret_color: self.caret_color,
            prefix: self.prefix,
            message,
        }
    }
}

impl Position {
    fn diag(&self, message: String) -> (b: DiagnosticBuilder)
        ensures
            b.pos == *self,
            b.caret_color == Color::Blue,
            b.prefix@ == Seq::<char>::empty(),
            b.message == Some(message),
    {
        DiagnosticBuilder::new(self.clone()).message(message)
    }

    /// A remark about this place.
    pub fn diag_info(&self, message: String) -> (b: DiagnosticBuilder)
        ensures
            b.pos == *self,
            b.caret_color == Color::Blue,
            b.prefix@ == Seq::<char>::empty(),
            b.message == Some(message),
    {
        self.diag(message).caret_color(Color::Blue)
    }

    /// An error at this place.
    pub fn diag_err(&self, message: String) -> (b: DiagnosticBuilder)
        ensures
            b.pos == *self,
            b.caret_color == Color::Red,
            b.prefix@ == Seq::<char>::empty(),
            b.message == Some(message),
    {
        self.diag(message).caret_color(Color::Red)
    }
}

/// Why a unit could not be compiled.
#[derive(Debug)]
pub enum Error {
    /// The source is at fault; the diagnostic says where and how.
    Diag(Diagnostic),
    /// The label counter has run out.
    LabelsExhausted,
    /// The locals of a function take more room than the machine's word can
    /// count.
    FrameTooLarge,
}

impl From<Diagnostic> for Error {
    fn from(d: Diagnostic) -> (e: Error) {
        Error::Diag(d)
    }
}

impl vstd::std_specs::convert::FromSpecImpl<Diagnostic> for Error {
    open spec fn obeys_from_spec() -> bool {
        true
    }

    open spec fn from_spec(d: Diagnostic) -> Error {
        Error::Diag(d)
    }
}

} // verus!

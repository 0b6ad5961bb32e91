//! Source text, and the places in it that the statement tree points back to.

use std::rc::Rc;
use vstd::prelude::*;
use vstd::utf8::{encode_utf8, is_char_boundary};

verus! {

/// A source file held in memory.
#[derive(Debug)]
pub struct Source {
    pub input: String,
    pub name: String,
}

/// `Rc::clone` of std: a second handle to the same allocation, so what it
/// points to is what the first points to.
#[verifier::external_body]
fn share(source: &Rc<Source>) -> (r: Rc<Source>)
    ensures
        r == *source,
{
    Rc::clone(source)
}

impl Source {
    /// A source that no file stands behind.
    pub fn from_string(input: &str) -> (s: Rc<Source>)
        ensures
            s.input@ == input@,
            s.name@ == "<memory>"@,
    {
        Source::new("<memory>".to_owned(), input.to_owned())
    }

    pub fn new(name: String, input: String) -> (s: Rc<Source>)
        ensures
            s.name == name,
            s.input == input,
    {
        Rc::new(Source { input, name })
    }

    pub fn name(&self) -> (n: &str)
        ensures
            n@ == self.name@,
    {
        self.name.as_str()
    }
}

/// How many line feeds a run of bytes holds.
pub open spec fn newlines(bytes: Seq<u8>) -> nat
    decreases bytes.len(),
{
    if bytes.len() == 0 {
        0
    } else {
        newlines(bytes.drop_last()) + if bytes.last() == 10u8 {
            1nat
        } else {
            0nat
        }
    }
}

/// Where the last line of a run of bytes starts: behind its last line feed,
/// or at 0 if it has none.
pub open spec fn line_start(bytes: Seq<u8>) -> nat
    decreases bytes.len(),
{
    if bytes.len() == 0 {
        0
    } else if bytes.last() == 10u8 {
        bytes.len()
    } else {
        line_start(bytes.drop_last())
    }
}

/// A run of bytes of a source.
#[derive(Debug)]
pub struct Span {
    pub source: Rc<Source>,
    pub offset: usize,
    pub len: usize,
}

impl Clone for Span {
    fn clone(&self) -> (s: Self)
        ensures
            s == *self,
    {
        Span { source: share(&self.source), offset: self.offset, len: self.len }
    }
}

/// A span, with the line and the column at which it starts, both counted
/// from 0.
#[derive(Debug)]
pub struct Position {
    pub span: Span,
    pub line: usize,
    pub column: usize,
}

impl Clone for Position {
    fn clone(&self) -> (p: Self)
        ensures
            p == *self,
    {
        Position { span: self.span.clone(), line: self.line, column: self.column }
    }
}

impl Span {
    /// The bytes of the whole source.
    pub open spec fn input_bytes(&self) -> Seq<u8> {
        encode_utf8(self.source.input@)
    }

    /// The span lies inside its source and cuts through no character.
    pub open spec fn wf(&self) -> bool {
        let bytes = self.input_bytes();
        &&& self.offset + self.len <= bytes.len()
        &&& is_char_boundary(bytes, self.offset as int)
        &&& is_char_boundary(
            bytes.subrange(self.offset as int, bytes.len() as int),
            self.len as int,
        )
    }

    /// The bytes that the span covers.
    pub open spec fn bytes(&self) -> Seq<u8> {
        self.input_bytes().subrange(self.offset as int, self.offset + self.len)
    }

    /// The bytes of the source in front of the span.
    pub open spec fn before(&self) -> Seq<u8> {
        let bytes = self.input_bytes();
        if self.offset <= bytes.len() {
            bytes.take(self.offset as int)
        } else {
            bytes
        }
    }

    /// The line on which the span starts, counted from 0.
    pub open spec fn line(&self) -> nat {
        newlines(self.before())
    }

    /// How many bytes into its line the span starts.
    pub open spec fn column(&self) -> int {
        self.offset - line_start(self.before())
    }

    /// Whether the span lies inside its source and cuts through no
    /// character.
    pub fn is_valid(&self) -> (ok: bool)
        ensures
            ok == self.wf(),
    {
        let input = self.source.input.as_str();
        let total = input.as_bytes().len();
        if self.offset > total || self.len > total - self.offset {
            return false;
        }
        if !input.is_char_boundary(self.offset) {
            return false;
        }
        let (_, rest) = input.split_at(self.offset);
        rest.is_char_boundary(self.len)
    }

    /// The text that the span covers.
    pub fn slice(&self) -> (s: &str)
        requires
            self.wf(),
        ensures
            encode_utf8(s@) == self.bytes(),
    {
        let input = self.source.input.as_str();
        let (_, rest) = input.split_at(self.offset);
        let (text, _) = rest.split_at(self.len);
        text
    }

    /// The span with the line and the column at which it starts.
    pub fn position(&self) -> (p: Position)
        ensures
            p.span == *self,
            p.line == self.line(),
            p.column == self.column(),
    {
        let bytes = self.source.input.as_str().as_bytes();
        let end = if self.offset <= bytes.len() {
            self.offset
        } else {
            bytes.len()
        };
        let mut line: usize = 0;
        let mut start: usize = 0;
        let mut i: usize = 0;
        while i < end
            invariant
                i <= end <= bytes@.len(),
                line <= i,
                start <= i,
                line == newlines(bytes@.take(i as int)),
                start == line_start(bytes@.take(i as int)),
            decreases end - i,
        {
            proof {
                assert(bytes@.take(i + 1).drop_last() =~= bytes@.take(i as int));
            }
            if bytes[i] == 10u8 {
                line = line + 1;
                start = i + 1;
            }
            i = i + 1;
        }
        proof {
            assert(bytes@.take(bytes@.len() as int) =~= bytes@);
        }
        Position { span: self.clone(), line, column: self.offset - start }
    }
}

} // verus!

//! The meaning of one token: an instruction, a line break, or a comment.

use vstd::prelude::*;
use vstd::string::StrSliceExecFns;

verus! {

/// What one grapheme cluster of a source means.
#[derive(Debug, Clone, Copy, PartialEq, Eq, Structural, PartialOrd, Ord, Hash)]
pub enum Symbol {
    /// `>`
    IncPtr,
    /// `<`
    DecPtr,
    /// `+`
    IncData,
    /// `-`
    DecData,
    /// `,`
    Read,
    /// `.`
    Write,
    /// `[`
    LoopStart,
    /// `]`
    LoopEnd,
    /// A line feed, alone or behind a carriage return.
    Newline,
    /// Anything else: a comment.
    Other,
}

/// The meaning of a cluster that is the one character `c`.
pub open spec fn symbol_of_char(c: char) -> Symbol {
    if c == '>' {
        Symbol::IncPtr
    } else if c == '<' {
        Symbol::DecPtr
    } else if c == '+' {
        Symbol::IncData
    } else if c == '-' {
        Symbol::DecData
    } else if c == ',' {
        Symbol::Read
    } else if c == '.' {
        Symbol::Write
    } else if c == '[' {
        Symbol::LoopStart
    } else if c == ']' {
        Symbol::LoopEnd
    } else if c == '\n' {
        Symbol::Newline
    } else {
        Symbol::Other
    }
}

/// The meaning of the cluster `text`. An instruction character with a
/// combining mark on it is a comment, not an instruction.
pub open spec fn symbol_of(text: Seq<char>) -> Symbol {
    if text.len() == 1 {
        symbol_of_char(text[0])
    } else if text.len() == 2 && text[0] == '\r' && text[1] == '\n' {
        Symbol::Newline
    } else {
        Symbol::Other
    }
}

impl Symbol {
    /// One of the six instructions that can be repeated.
    pub open spec fn is_plain(self) -> bool {
        self == Symbol::IncPtr || self == Symbol::DecPtr || self == Symbol::IncData || self
            == Symbol::DecData || self == Symbol::Read || self == Symbol::Write
    }

    /// A loop start or a loop end.
    pub open spec fn is_jump(self) -> bool {
        self == Symbol::LoopStart || self == Symbol::LoopEnd
    }

    /// One of the eight instructions.
    pub open spec fn is_instruction(self) -> bool {
        self.is_plain() || self.is_jump()
    }
}

/// The meaning of the one character `c`.
pub fn classify_char(c: char) -> (s: Symbol)
    ensures
        s == symbol_of_char(c),
{
    if c == '>' {
        Symbol::IncPtr
    } else if c == '<' {
        Symbol::DecPtr
    } else if c == '+' {
        Symbol::IncData
    } else if c == '-' {
        Symbol::DecData
    } else if c == ',' {
        Symbol::Read
    } else if c == '.' {
        Symbol::Write
    } else if c == '[' {
        Symbol::LoopStart
    } else if c == ']' {
        Symbol::LoopEnd
    } else if c == '\n' {
        Symbol::Newline
    } else {
        Symbol::Other
    }
}

/// The meaning of the cluster `text`.
pub fn classify(text: &str) -> (s: Symbol)
    ensures
        s == symbol_of(text@),
{
    let n = text.unicode_len();
    if n == 1 {
        classify_char(text.get_char(0))
    } else if n == 2 && text.get_char(0) == '\r' && text.get_char(1) == '\n' {
        Symbol::Newline
    } else {
        Symbol::Other
    }
}

} // verus!

//! Byte codes: the instructions that the machine executes in compiled mode.

use crate::source_file::{RawContentIndex, UcContentIndex};
use crate::symbol::Symbol;
use crate::utility::{LoopCode, LoopRole};
use vstd::prelude::*;

verus! {

/// The eight kinds of instruction.
#[derive(Debug, Clone, Copy, PartialEq, Eq, Structural, PartialOrd, Ord, Hash)]
pub enum ByteCodeKind {
    IncPtr,
    DecPtr,
    IncData,
    DecData,
    Read,
    Write,
    LoopStartJumpIfDataZero,
    LoopEndJumpIfDataNotZero,
}

impl ByteCodeKind {
    /// One of the two kinds that move the instruction pointer.
    pub open spec fn is_jump(self) -> bool {
        self == ByteCodeKind::LoopStartJumpIfDataZero || self
            == ByteCodeKind::LoopEndJumpIfDataNotZero
    }

    /// The role of an instruction of this kind in loop matching.
    pub open spec fn loop_role(self) -> LoopRole {
        match self {
            ByteCodeKind::LoopStartJumpIfDataZero => LoopRole::Start,
            ByteCodeKind::LoopEndJumpIfDataNotZero => LoopRole::End,
            _ => LoopRole::Neither,
        }
    }

    /// The kind of instruction that `symbol` stands for, if it stands for one.
    pub open spec fn of_symbol(symbol: Symbol) -> Option<ByteCodeKind> {
        match symbol {
            Symbol::IncPtr => Some(ByteCodeKind::IncPtr),
            Symbol::DecPtr => Some(ByteCodeKind::DecPtr),
            Symbol::IncData => Some(ByteCodeKind::IncData),
            Symbol::DecData => Some(ByteCodeKind::DecData),
            Symbol::Read => Some(ByteCodeKind::Read),
            Symbol::Write => Some(ByteCodeKind::Write),
            Symbol::LoopStart => Some(ByteCodeKind::LoopStartJumpIfDataZero),
            Symbol::LoopEnd => Some(ByteCodeKind::LoopEndJumpIfDataNotZero),
            Symbol::Newline => None,
            Symbol::Other => None,
        }
    }

    /// The kind of instruction that `symbol` stands for, if it stands for one.
    pub fn from_symbol(symbol: Symbol) -> (kind: Option<ByteCodeKind>)
        ensures
            kind == ByteCodeKind::of_symbol(symbol),
    {
        match symbol {
            Symbol::IncPtr => Some(ByteCodeKind::IncPtr),
            Symbol::DecPtr => Some(ByteCodeKind::DecPtr),
            Symbol::IncData => Some(ByteCodeKind::IncData),
            Symbol::DecData => Some(ByteCodeKind::DecData),
            Symbol::Read => Some(ByteCodeKind::Read),
            Symbol::Write => Some(ByteCodeKind::Write),
            Symbol::LoopStart => Some(ByteCodeKind::LoopStartJumpIfDataZero),
            Symbol::LoopEnd => Some(ByteCodeKind::LoopEndJumpIfDataNotZero),
            Symbol::Newline => None,
            Symbol::Other => None,
        }
    }

    /// Whether this kind moves the instruction pointer.
    pub fn jumps(self) -> (b: bool)
        ensures
            b == self.is_jump(),
    {
        match self {
            ByteCodeKind::LoopStartJumpIfDataZero => true,
            ByteCodeKind::LoopEndJumpIfDataNotZero => true,
            _ => false,
        }
    }
}

/// A place in the raw source: the line, the token within the line, and the
/// byte offset, all counted from 0.
#[derive(Debug, Clone, Copy, PartialEq, Eq, Structural, PartialOrd, Ord, Hash)]
pub struct SourcePosition {
    pub row: usize,
    pub column: usize,
    pub idx_in_raw: RawContentIndex,
}

impl SourcePosition {
    /// The place `n` one-byte tokens further on the same line.
    pub open spec fn advanced(self, n: int) -> SourcePosition
        recommends
            self.column + n <= usize::MAX,
            self.idx_in_raw.0 + n <= usize::MAX,
    {
        SourcePosition {
            row: self.row,
            column: (self.column + n) as usize,
            idx_in_raw: RawContentIndex((self.idx_in_raw.0 + n) as usize),
        }
    }

    pub fn new(row: usize, column: usize, idx_in_raw: RawContentIndex) -> (p: SourcePosition)
        ensures
            p == (SourcePosition { row, column, idx_in_raw }),
    {
        SourcePosition { row, column, idx_in_raw }
    }

    /// The place `n` one-byte tokens further on the same line.
    pub fn inc_from(self, n: usize) -> (p: SourcePosition)
        requires
            self.column + n <= usize::MAX,
            self.idx_in_raw.0 + n <= usize::MAX,
        ensures
            p == self.advanced(n as int),
    {
        SourcePosition {
            row: self.row,
            column: self.column + n,
            idx_in_raw: RawContentIndex::inc_from(self.idx_in_raw, n),
        }
    }
}

/// The part of the raw source from `start` up to, not including, `end`.
#[derive(Debug, Clone, Copy, PartialEq, Eq, Structural, PartialOrd, Ord, Hash)]
pub struct SourceRange {
    pub start: SourcePosition,
    pub end: SourcePosition,
}

/// What a byte code holds.
pub ghost struct ByteCodeView {
    pub kind: ByteCodeKind,
    /// For the six plain kinds, how often the instruction is repeated. For a
    /// jump, the index of the matching jump, or `None` before it is resolved.
    pub arg: Option<usize>,
    /// The part of the raw source that the instruction covers.
    pub range_in_raw: SourceRange,
}

/// One instruction with its operand and the part of the source that it covers.
#[derive(Debug, PartialEq, Eq, PartialOrd, Ord, Hash)]
pub struct ByteCode {
    kind: ByteCodeKind,
    arg: Option<usize>,
    range_in_raw: SourceRange,
}

impl Clone for ByteCode {
    fn clone(&self) -> (code: Self)
        ensures
            code@ == self@,
    {
        Self { kind: self.kind, arg: self.arg, range_in_raw: self.range_in_raw }
    }
}

impl View for ByteCode {
    type V = ByteCodeView;

    closed spec fn view(&self) -> ByteCodeView {
        ByteCodeView { kind: self.kind, arg: self.arg, range_in_raw: self.range_in_raw }
    }
}

/// The views of a sequence of byte codes.
pub open spec fn views_of(codes: Seq<ByteCode>) -> Seq<ByteCodeView> {
    codes.map_values(|c: ByteCode| c@)
}

/// The roles of a sequence of instructions in loop matching.
pub open spec fn code_roles(codes: Seq<ByteCodeView>) -> Seq<LoopRole> {
    codes.map_values(|c: ByteCodeView| c.kind.loop_role())
}

impl ByteCode {
    /// An instruction that is repeated `raw_len` times and covers as many
    /// one-byte tokens from `start` on.
    pub fn make_non_jump_code(kind: ByteCodeKind, start: SourcePosition, raw_len: usize) -> (code:
        Self)
        requires
            start.column + raw_len <= usize::MAX,
            start.idx_in_raw.0 + raw_len <= usize::MAX,
        ensures
            code@ == (ByteCodeView {
                kind,
                arg: Some(raw_len),
                range_in_raw: SourceRange { start, end: start.advanced(raw_len as int) },
            }),
    {
        Self {
            kind,
            arg: Some(raw_len),
            range_in_raw: SourceRange { start, end: start.inc_from(raw_len) },
        }
    }

    /// A jump at `start` whose target is not known yet.
    pub fn make_uninit_jump_code(kind: ByteCodeKind, start: SourcePosition) -> (code: Self)
        requires
            start.column + 1 <= usize::MAX,
            start.idx_in_raw.0 + 1 <= usize::MAX,
        ensures
            code@ == (ByteCodeView {
                kind,
                arg: None,
                range_in_raw: SourceRange { start, end: start.advanced(1) },
            }),
    {
        Self { kind, arg: None, range_in_raw: SourceRange { start, end: start.inc_from(1) } }
    }

    /// Sets the target of a jump.
    pub fn correct_jump(&mut self, jump_to: UcContentIndex)
        ensures
            final(self)@ == (ByteCodeView { arg: Some(jump_to.0), ..old(self)@ }),
    {
        self.arg = Some(jump_to.get());
    }

    pub fn kind(&self) -> (kind: ByteCodeKind)
        ensures
            kind == self@.kind,
    {
        self.kind
    }

    pub fn arg(&self) -> (arg: Option<usize>)
        ensures
            arg == self@.arg,
    {
        self.arg
    }

    pub fn range_in_raw(&self) -> (range: SourceRange)
        ensures
            range == self@.range_in_raw,
    {
        self.range_in_raw
    }
}

impl LoopCode for ByteCode {
    open spec fn loop_role(&self) -> LoopRole {
        self@.kind.loop_role()
    }

    fn is_loop_start(&self) -> (b: bool) {
        self.kind == ByteCodeKind::LoopStartJumpIfDataZero
    }

    fn is_loop_end(&self) -> (b: bool) {
        self.kind == ByteCodeKind::LoopEndJumpIfDataNotZero
    }
}

} // verus!

use brainfuck::byte_code::{ByteCode, ByteCodeKind, SourcePosition, SourceRange};
use brainfuck::source_file::{RawContentIndex, UcContentIndex};
use brainfuck::symbol::Symbol;

fn is_small_value_struct_but_no_default<T>(_: &T)
where
    T: Sync
        + Send
        + Copy
        + Clone
        + std::fmt::Debug
        + std::hash::Hash
        + PartialEq
        + Eq
        + PartialOrd
        + Ord,
{
}

fn is_big_value_struct<T>(_: &T)
where
    T: Sync
        + Send
        + Clone
        + Default
        + std::fmt::Debug
        + std::hash::Hash
        + PartialEq
        + Eq
        + PartialOrd
        + Ord,
{
}

fn is_big_value_struct_but_no_default<T>(_: &T)
where
    T: Sync + Send + Clone + std::fmt::Debug + std::hash::Hash + PartialEq + Eq + PartialOrd + Ord,
{
}

fn is_small_value_enum<T>(_: &T)
where
    T: Sync
        + Send
        + Copy
        + Clone
        + std::fmt::Debug
        + std::hash::Hash
        + PartialEq
        + Eq
        + PartialOrd
        + Ord,
{
}

fn is_default_debug<T>(_: &T)
where
    T: Default + std::fmt::Debug + Sync + Send,
{
}

fn is_debug<T>(v: &T) -> usize
where
    T: std::fmt::Debug + Sync + Send,
{
    format!("{:?}", v).len()
}

#[derive(Debug, Clone, Copy, PartialEq, Eq, PartialOrd, Ord, Hash)]
struct SmallValueStructButNoDefault {}

#[derive(Debug, Default, Clone, PartialEq, Eq, PartialOrd, Ord, Hash)]
struct BigValueStruct {}

#[derive(Debug, Clone, PartialEq, Eq, PartialOrd, Ord, Hash)]
struct BigValueStructButNoDefault {}

#[derive(Debug, Clone, Copy, PartialEq, Eq, PartialOrd, Ord, Hash)]
enum SmallValueEnum {
    A,
}

#[derive(Debug, Default)]
struct DefaultDebugStruct {}

#[derive(Debug)]
struct DebugStruct {}

fn make_mock_byte_code() -> ByteCode {
    ByteCode::make_non_jump_code(
        ByteCodeKind::DecData,
        SourcePosition::new(0, 0, RawContentIndex::new(0)),
        1,
    )
}

#[test]
fn byte_code_traits() {
    is_small_value_enum(&ByteCodeKind::DecData);

    is_big_value_struct_but_no_default(&make_mock_byte_code());
}

#[test]
fn test_traits() {
    is_small_value_struct_but_no_default(&SmallValueStructButNoDefault {});
    is_big_value_struct(&BigValueStruct {});
    is_big_value_struct_but_no_default(&BigValueStructButNoDefault {});
    is_small_value_enum(&SmallValueEnum::A);
    is_default_debug(&DefaultDebugStruct {});
    is_debug(&DebugStruct {});
}

#[test]
fn a_plain_code_covers_its_run() {
    let start = SourcePosition::new(2, 5, RawContentIndex::new(40));
    let code = ByteCode::make_non_jump_code(ByteCodeKind::IncPtr, start, 7);
    assert_eq!(code.kind(), ByteCodeKind::IncPtr);
    assert_eq!(code.arg(), Some(7));
    assert_eq!(
        code.range_in_raw(),
        SourceRange { start, end: SourcePosition::new(2, 12, RawContentIndex::new(47)) }
    );
}

#[test]
fn a_jump_is_unresolved_until_it_is_corrected() {
    let start = SourcePosition::new(0, 3, RawContentIndex::new(3));
    let mut code = ByteCode::make_uninit_jump_code(ByteCodeKind::LoopStartJumpIfDataZero, start);
    assert_eq!(code.arg(), None);
    assert_eq!(code.range_in_raw().end, SourcePosition::new(0, 4, RawContentIndex::new(4)));
    code.correct_jump(UcContentIndex::new(0));
    assert_eq!(code.arg(), Some(0));
    assert_eq!(code.kind(), ByteCodeKind::LoopStartJumpIfDataZero);
    assert_eq!(code.range_in_raw().start, start);
}

#[test]
fn an_unresolved_jump_differs_from_every_resolved_one() {
    let start = SourcePosition::new(0, 0, RawContentIndex::new(0));
    let unresolved = ByteCode::make_uninit_jump_code(ByteCodeKind::LoopEndJumpIfDataNotZero, start);
    let mut resolved = unresolved.clone();
    resolved.correct_jump(UcContentIndex::new(usize::MAX));
    assert_ne!(unresolved, resolved);
    assert_eq!(resolved.arg(), Some(usize::MAX));
}

#[test]
fn kinds_come_from_symbols() {
    assert_eq!(ByteCodeKind::from_symbol(Symbol::IncPtr), Some(ByteCodeKind::IncPtr));
    assert_eq!(ByteCodeKind::from_symbol(Symbol::DecPtr), Some(ByteCodeKind::DecPtr));
    assert_eq!(ByteCodeKind::from_symbol(Symbol::IncData), Some(ByteCodeKind::IncData));
    assert_eq!(ByteCodeKind::from_symbol(Symbol::DecData), Some(ByteCodeKind::DecData));
    assert_eq!(ByteCodeKind::from_symbol(Symbol::Read), Some(ByteCodeKind::Read));
    assert_eq!(ByteCodeKind::from_symbol(Symbol::Write), Some(ByteCodeKind::Write));
    assert_eq!(
        ByteCodeKind::from_symbol(Symbol::LoopStart),
        Some(ByteCodeKind::LoopStartJumpIfDataZero)
    );
    assert_eq!(
        ByteCodeKind::from_symbol(Symbol::LoopEnd),
        Some(ByteCodeKind::LoopEndJumpIfDataNotZero)
    );
    assert_eq!(ByteCodeKind::from_symbol(Symbol::Newline), None);
    assert_eq!(ByteCodeKind::from_symbol(Symbol::Other), None);
}

#[test]
fn only_the_two_loop_kinds_jump() {
    assert!(ByteCodeKind::LoopStartJumpIfDataZero.jumps());
    assert!(ByteCodeKind::LoopEndJumpIfDataNotZero.jumps());
    for kind in [
        ByteCodeKind::IncPtr,
        ByteCodeKind::DecPtr,
        ByteCodeKind::IncData,
        ByteCodeKind::DecData,
        ByteCodeKind::Read,
        ByteCodeKind::Write,
    ] {
        assert!(!kind.jumps());
    }
}

#[test]
fn indices_count_on() {
    assert_eq!(RawContentIndex::new(3).inc_from(4), RawContentIndex::new(7));
    assert_eq!(RawContentIndex::new(3).get(), 3);
    assert_eq!(UcContentIndex::new(3).inc_from(4), UcContentIndex::new(7));
    assert_eq!(UcContentIndex::new(9).get(), 9);
    assert_eq!(
        SourcePosition::new(1, 2, RawContentIndex::new(3)).inc_from(4),
        SourcePosition::new(1, 6, RawContentIndex::new(7))
    );
}

use brainfuck::byte_code::{ByteCode, ByteCodeKind, SourcePosition};
use brainfuck::source_file::{
    RawContentIndex, UcContentIndex, UcSourceFile, UcSourceFileError, UcToken,
};
use brainfuck::symbol::{classify, classify_char, Symbol};
use brainfuck::utility::ExtraParen;

fn big_value_of_source<T>(_: &T)
where
    T: Sync + Send + Clone + std::fmt::Debug + std::hash::Hash + PartialEq + Eq + PartialOrd + Ord,
{
}

fn small_value_of_source<T>(_: &T)
where
    T: Sync
        + Send
        + Copy
        + Clone
        + std::fmt::Debug
        + std::hash::Hash
        + PartialEq
        + Eq
        + PartialOrd
        + Ord,
{
}

fn make_mock_src_file() -> UcSourceFile {
    UcSourceFile::from_str("", "")
}

fn make_mock_raw_token() -> UcToken {
    UcToken::new(RawContentIndex::new(0), "")
}

fn at(row: usize, column: usize, offset: usize) -> SourcePosition {
    SourcePosition::new(row, column, RawContentIndex::new(offset))
}

fn texts(src: &str) -> Vec<(usize, String)> {
    UcSourceFile::lex(src).iter().map(|t| (t.idx_in_raw().get(), t.uc().to_owned())).collect()
}

fn compiled(src: &str) -> Vec<(ByteCodeKind, Option<usize>)> {
    let src_file = UcSourceFile::from_str(src, "");
    src_file.to_byte_codes().unwrap().iter().map(|c| (c.kind(), c.arg())).collect()
}

fn fault(src: &str) -> ExtraParen {
    let src_file = UcSourceFile::from_str(src, "");
    match src_file.to_byte_codes() {
        Err(UcSourceFileError::UnmatchedParen { src_file: source, details }) => {
            assert_eq!(source, &src_file);
            details
        }
        other => panic!("src: {}, {:?}", src, other),
    }
}

#[test]
fn source_file_traits() {
    let src_file_error = UcSourceFileError::FileFailToRead {
        path: String::from("abc"),
        reason: String::from("xyz"),
    };
    big_value_of_source(&src_file_error);
    let se = src_file_error.message();
    assert!(se.contains("abc") && se.contains("xyz"));

    let src_file = make_mock_src_file();

    big_value_of_source(&src_file);

    big_value_of_source(&make_mock_raw_token());

    big_value_of_source(&make_mock_raw_token());

    small_value_of_source(&RawContentIndex::new(0));
    small_value_of_source(&UcContentIndex::new(0));
}

#[test]
fn unicode() {
    let content = ".a\u{310}e\u{301}o\u{308}\u{332}.\n[+-]";

    let src_file = UcSourceFile::lex(content);
    assert_eq!(10, src_file.len());
    let mut s = String::with_capacity(20);
    src_file.iter().fold(&mut s, |acc, x| {
        acc.push_str(x.uc());
        acc
    });
    assert_eq!(s, content);
}

#[test]
fn src_file_to_byte_codes() {
    let content = "[++-,comment.]\n<<<<>";

    let src_file = &UcSourceFile::from_str(content, "");
    let byte_code = src_file.to_byte_codes().unwrap();
    assert_eq!(
        byte_code,
        vec![
            {
                let mut bc = ByteCode::make_uninit_jump_code(
                    ByteCodeKind::LoopStartJumpIfDataZero,
                    at(0, 0, 0),
                );
                bc.correct_jump(UcContentIndex::new(5));
                bc
            },
            ByteCode::make_non_jump_code(ByteCodeKind::IncData, at(0, 1, 1), 2),
            ByteCode::make_non_jump_code(ByteCodeKind::DecData, at(0, 3, 3), 1),
            ByteCode::make_non_jump_code(ByteCodeKind::Read, at(0, 4, 4), 1),
            // skip 7 bytes comment
            ByteCode::make_non_jump_code(ByteCodeKind::Write, at(0, 12, 12), 1),
            {
                let mut bc = ByteCode::make_uninit_jump_code(
                    ByteCodeKind::LoopEndJumpIfDataNotZero,
                    at(0, 13, 13),
                );
                bc.correct_jump(UcContentIndex::new(0));
                bc
            },
            ByteCode::make_non_jump_code(ByteCodeKind::DecPtr, at(1, 0, 15), 4),
            ByteCode::make_non_jump_code(ByteCodeKind::IncPtr, at(1, 4, 19), 1),
        ]
    );
}

#[test]
fn tokens_carry_their_byte_offsets() {
    assert_eq!(
        texts("a\u{310}e\u{301}o\u{308}\u{332}\r\n"),
        vec![
            (0, String::from("a\u{310}")),
            (3, String::from("e\u{301}")),
            (6, String::from("o\u{308}\u{332}")),
            (11, String::from("\r\n")),
        ]
    );
}

#[test]
fn lexing_nothing_gives_no_token() {
    let src_file = UcSourceFile::from_str("", "empty");
    assert!(src_file.is_empty());
    assert_eq!(src_file.len(), 0);
    assert_eq!(src_file.filename(), "empty");
    assert_eq!(src_file.raw_content(), "");
    assert_eq!(src_file.to_byte_codes().unwrap(), vec![]);
}

#[test]
fn the_tokens_are_the_text_again() {
    for content in ["", "+", "+[-]\n", "🇷🇺🇸🇹 [-] e\u{301}\r\n\tok", "\u{301}\u{301}", "한글 🙂"] {
        let src_file = UcSourceFile::from_str(content, "");
        let mut joined = String::new();
        let mut expected_offset = 0;
        for token in src_file.iter() {
            assert!(!token.uc().is_empty());
            assert_eq!(token.idx_in_raw().get(), expected_offset);
            expected_offset += token.uc().len();
            joined.push_str(token.uc());
        }
        assert_eq!(joined, content);
        assert_eq!(expected_offset, content.len());
        assert_eq!(src_file.raw_content(), content);
        assert_eq!(src_file.tokens().len(), src_file.len());
    }
}

#[test]
fn a_cluster_is_not_cut() {
    let tokens = UcSourceFile::lex("+\u{301}-");
    assert_eq!(tokens.len(), 2);
    assert_eq!(tokens[0].uc(), "+\u{301}");
    assert_eq!(tokens[0].classify(), Symbol::Other);
    assert_eq!(tokens[1].uc(), "-");
    assert_eq!(tokens[1].classify(), Symbol::DecData);
    assert_eq!(compiled("+\u{301}-"), vec![(ByteCodeKind::DecData, Some(1))]);
}

#[test]
fn symbols_are_told_apart() {
    assert_eq!(classify(">"), Symbol::IncPtr);
    assert_eq!(classify("<"), Symbol::DecPtr);
    assert_eq!(classify("+"), Symbol::IncData);
    assert_eq!(classify("-"), Symbol::DecData);
    assert_eq!(classify(","), Symbol::Read);
    assert_eq!(classify("."), Symbol::Write);
    assert_eq!(classify("["), Symbol::LoopStart);
    assert_eq!(classify("]"), Symbol::LoopEnd);
    assert_eq!(classify("\n"), Symbol::Newline);
    assert_eq!(classify("\r\n"), Symbol::Newline);
    assert_eq!(classify("\r"), Symbol::Other);
    assert_eq!(classify(""), Symbol::Other);
    assert_eq!(classify("++"), Symbol::Other);
    assert_eq!(classify("a"), Symbol::Other);
    assert_eq!(classify("\n\n"), Symbol::Other);
    assert_eq!(classify_char('+'), Symbol::IncData);
    assert_eq!(classify_char('\n'), Symbol::Newline);
    assert_eq!(classify_char('x'), Symbol::Other);
}

#[test]
fn a_run_at_the_end_is_one_code() {
    assert_eq!(compiled("+++"), vec![(ByteCodeKind::IncData, Some(3))]);
    assert_eq!(
        compiled("+++--"),
        vec![(ByteCodeKind::IncData, Some(3)), (ByteCodeKind::DecData, Some(2))]
    );
}

#[test]
fn a_comment_ends_a_run() {
    assert_eq!(
        compiled("++ ++"),
        vec![(ByteCodeKind::IncData, Some(2)), (ByteCodeKind::IncData, Some(2))]
    );
    assert_eq!(
        compiled(">>\n>"),
        vec![(ByteCodeKind::IncPtr, Some(2)), (ByteCodeKind::IncPtr, Some(1))]
    );
}

#[test]
fn brackets_are_never_folded() {
    assert_eq!(
        compiled("[[]]"),
        vec![
            (ByteCodeKind::LoopStartJumpIfDataZero, Some(3)),
            (ByteCodeKind::LoopStartJumpIfDataZero, Some(2)),
            (ByteCodeKind::LoopEndJumpIfDataNotZero, Some(1)),
            (ByteCodeKind::LoopEndJumpIfDataNotZero, Some(0)),
        ]
    );
}

#[test]
fn all_six_plain_kinds_are_folded() {
    assert_eq!(
        compiled("..,,,<<<<>>>>>++++++-------"),
        vec![
            (ByteCodeKind::Write, Some(2)),
            (ByteCodeKind::Read, Some(3)),
            (ByteCodeKind::DecPtr, Some(4)),
            (ByteCodeKind::IncPtr, Some(5)),
            (ByteCodeKind::IncData, Some(6)),
            (ByteCodeKind::DecData, Some(7)),
        ]
    );
}

#[test]
fn jumps_count_byte_codes_not_tokens() {
    assert_eq!(
        compiled("comment +++[ inner ---- ] tail"),
        vec![
            (ByteCodeKind::IncData, Some(3)),
            (ByteCodeKind::LoopStartJumpIfDataZero, Some(3)),
            (ByteCodeKind::DecData, Some(4)),
            (ByteCodeKind::LoopEndJumpIfDataNotZero, Some(1)),
        ]
    );
}

#[test]
fn only_comments_compile_to_nothing() {
    assert_eq!(compiled("no instruction here\n none at all"), vec![]);
}

#[test]
fn rows_and_columns_count_tokens() {
    let src_file = UcSourceFile::from_str("e\u{301}+\r\n\n ++[\n]", "");
    let codes = src_file.to_byte_codes().unwrap();
    let ranges: Vec<_> = codes.iter().map(|c| c.range_in_raw()).collect();
    assert_eq!(ranges.len(), 4);
    assert_eq!((ranges[0].start, ranges[0].end), (at(0, 1, 3), at(0, 2, 4)));
    assert_eq!((ranges[1].start, ranges[1].end), (at(2, 1, 8), at(2, 3, 10)));
    assert_eq!((ranges[2].start, ranges[2].end), (at(2, 3, 10), at(2, 4, 11)));
    assert_eq!((ranges[3].start, ranges[3].end), (at(3, 0, 12), at(3, 1, 13)));
}

#[test]
fn an_extra_end_fails_the_compilation() {
    assert_eq!(fault("]"), ExtraParen::Right(0));
    assert_eq!(fault("+++]"), ExtraParen::Right(1));
    assert_eq!(fault("a[b]c]d]"), ExtraParen::Right(2));
}

#[test]
fn an_extra_start_fails_the_compilation() {
    assert_eq!(fault("["), ExtraParen::Left(0));
    assert_eq!(fault("++[--[>>]"), ExtraParen::Left(1));
    assert_eq!(fault("[ [ ["), ExtraParen::Left(2));
}

#[test]
fn errors_say_what_went_wrong() {
    let unreadable = UcSourceFileError::FileFailToRead {
        path: String::from("a/b.bf"),
        reason: String::from("no such file"),
    };
    assert_eq!(unreadable.message(), "failed to read a/b.bf, no such file");
    let src_file = UcSourceFile::from_str("[", "");
    let unmatched = src_file.to_byte_codes().unwrap_err();
    assert_eq!(unmatched.message(), "unmatched paren");
}

#[test]
fn tokens_are_reached_by_instruction_pointer() {
    let src_file = UcSourceFile::from_str("+e\u{301}-", "label");
    assert_eq!(src_file.at_instr_ptr(0).uc(), "+");
    assert_eq!(src_file.at_instr_ptr(1).uc(), "e\u{301}");
    assert_eq!(src_file.at_instr_ptr(2).uc(), "-");
    assert_eq!(src_file.at_instr_ptr(2).idx_in_raw(), RawContentIndex::new(4));
    assert_eq!(src_file.at_instr_ptr(1), &UcToken::new(RawContentIndex::new(1), "e\u{301}"));
}

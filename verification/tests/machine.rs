use brainfuck::byte_code::{ByteCode, ByteCodeKind, SourcePosition};
use brainfuck::machine::{is_runnable, Machine};
use brainfuck::machine_io::MachineIO;
use brainfuck::source_file::{RawContentIndex, UcContentIndex, UcSourceFile, UcSourceFileError};
use brainfuck::utility::ExtraParen;
use std::cell::RefCell;
use std::collections::VecDeque;

#[derive(Debug)]
struct DebugMachineIO {
    out_buf: RefCell<String>,
    in_buf: RefCell<VecDeque<char>>,
}

impl DebugMachineIO {
    fn with_input(input: &str) -> Self {
        Self { out_buf: RefCell::new(String::new()), in_buf: RefCell::new(input.chars().collect()) }
    }

    fn output(&self) -> String {
        self.out_buf.borrow().clone()
    }

    fn unread(&self) -> usize {
        self.in_buf.borrow().len()
    }
}

impl MachineIO for &DebugMachineIO {
    fn out_char_n_times(&mut self, c: char, n: usize) {
        self.out_buf.borrow_mut().push_str(&c.to_string().repeat(n));
    }

    fn in_char(&mut self) -> char {
        self.in_buf.borrow_mut().pop_front().unwrap()
    }

    fn flush_all(&mut self) {
        self.out_buf.borrow_mut().clear();
    }
}

/// A port that keeps what it gets and counts how often it is flushed.
#[derive(Debug, Default)]
struct Port {
    out: String,
    input: VecDeque<char>,
    flushes: usize,
}

impl Port {
    fn reading(input: &str) -> Self {
        Self { out: String::new(), input: input.chars().collect(), flushes: 0 }
    }
}

impl MachineIO for Port {
    fn out_char_n_times(&mut self, c: char, n: usize) {
        for _ in 0..n {
            self.out.push(c);
        }
    }

    fn in_char(&mut self) -> char {
        self.input.pop_front().unwrap()
    }

    fn flush_all(&mut self) {
        self.out.clear();
        self.flushes += 1;
    }
}

const HELLO_WORLD: &str =
    "++++++++[>++++[>++>+++>+++>+<<<<-]>+>+>->>+[<]<-]>>.>---.+++++++..+++.>>.<-.<.+++.------.--------.>>+.>++.";

const MANY: usize = 10_000_000;

fn by_tokens(src: &str, input: &str, cell_size: usize) -> (String, usize, Vec<u8>, usize) {
    let io = &DebugMachineIO::with_input(input);
    let mut machine = Machine::with_io(cell_size, io);
    let src_file = UcSourceFile::from_str(src, "");
    assert!(machine.eval_source_file(&src_file, MANY).unwrap(), "src: {}", src);
    (io.output(), io.unread(), machine.cells().to_vec(), machine.data_ptr())
}

fn by_codes(src: &str, input: &str, cell_size: usize) -> (String, usize, Vec<u8>, usize) {
    let io = &DebugMachineIO::with_input(input);
    let mut machine = Machine::with_io(cell_size, io);
    let src_file = UcSourceFile::from_str(src, "");
    let byte_codes = src_file.to_byte_codes().unwrap();
    assert!(is_runnable(&byte_codes));
    assert!(machine.eval_byte_codes(&byte_codes, MANY), "src: {}", src);
    (io.output(), io.unread(), machine.cells().to_vec(), machine.data_ptr())
}

fn debug_len_of_machine<T>(v: &T) -> usize
where
    T: std::fmt::Debug + Sync + Send,
{
    format!("{:?}", v).len()
}

#[test]
fn machine_traits() {
    assert!(debug_len_of_machine(&Machine::with_io(60_000, Port::default())) > 60_000);
}

#[test]
fn hello_world_in_both_modes() {
    assert_eq!(HELLO_WORLD.len(), 106);
    let io = &DebugMachineIO::with_input("");
    let mut machine = Machine::with_io(30_000, io);
    let src_file = UcSourceFile::from_str(HELLO_WORLD, "hello");
    let finished = machine.eval_source_file(&src_file, usize::MAX).unwrap();
    assert!(finished);
    assert_eq!("Hello World!\n", io.output());

    let byte_codes = src_file.to_byte_codes().unwrap();
    let finished = machine.eval_byte_codes(&byte_codes, usize::MAX);
    assert!(finished);
    assert_eq!("Hello World!\n", io.output());
    assert_eq!(io.unread(), 0);
}

#[test]
fn hello_world_consumes_no_input() {
    let (output, unread, _, _) = by_tokens(HELLO_WORLD, "untouched", 30_000);
    assert_eq!(output, "Hello World!\n");
    assert_eq!(unread, 9);
    let (output, unread, _, _) = by_codes(HELLO_WORLD, "untouched", 30_000);
    assert_eq!(output, "Hello World!\n");
    assert_eq!(unread, 9);
}

#[test]
fn a_new_machine_is_reset() {
    let machine = Machine::with_io(10, Port::default());
    assert_eq!(machine.cells(), &[0u8; 10]);
    assert_eq!(machine.data_ptr(), 5);
    assert_eq!(machine.instr_ptr(), 0);
    let machine = Machine::with_io(7, Port::default());
    assert_eq!(machine.data_ptr(), 3);
    let machine = Machine::with_io(1, Port::default());
    assert_eq!(machine.data_ptr(), 0);
    assert_eq!(machine.cells(), &[0u8]);
}

#[test]
fn the_data_pointer_wraps_backward() {
    let mut machine = Machine::with_io(10, Port::default());
    assert_eq!(machine.data_ptr(), 5);
    machine.dec_ptr(6);
    assert_eq!(machine.data_ptr(), 9);
    assert_eq!(machine.instr_ptr(), 1);
    machine.dec_ptr(9);
    assert_eq!(machine.data_ptr(), 0);
    machine.dec_ptr(1);
    assert_eq!(machine.data_ptr(), 9);
    machine.dec_ptr(25);
    assert_eq!(machine.data_ptr(), 4);
    machine.dec_ptr(0);
    assert_eq!(machine.data_ptr(), 4);
    machine.dec_ptr(usize::MAX);
    assert_eq!(machine.data_ptr() as u128, (4 + 10 - (usize::MAX as u128 % 10)) % 10);
}

#[test]
fn the_data_pointer_wraps_forward() {
    let mut machine = Machine::with_io(10, Port::default());
    machine.inc_ptr(4);
    assert_eq!(machine.data_ptr(), 9);
    machine.inc_ptr(1);
    assert_eq!(machine.data_ptr(), 0);
    machine.inc_ptr(10);
    assert_eq!(machine.data_ptr(), 0);
    machine.inc_ptr(37);
    assert_eq!(machine.data_ptr(), 7);
    machine.inc_ptr(usize::MAX);
    assert_eq!(machine.data_ptr() as u128, (7 + usize::MAX as u128) % 10);
    assert_eq!(machine.instr_ptr(), 5);
    assert_eq!(machine.cells().len(), 10);
}

#[test]
fn a_cell_wraps_after_256_additions() {
    let mut machine = Machine::with_io(10, Port::default());
    for i in 0..256usize {
        assert_eq!(machine.cells()[5] as usize, i);
        machine.inc_data(1);
    }
    assert_eq!(machine.cells()[5], 0);
    assert_eq!(machine.instr_ptr(), 256);
}

#[test]
fn cells_add_and_subtract_modulo_256() {
    let mut machine = Machine::with_io(4, Port::default());
    machine.inc_data(300);
    assert_eq!(machine.cells()[2], 44);
    machine.dec_data(45);
    assert_eq!(machine.cells()[2], 255);
    machine.dec_data(257);
    assert_eq!(machine.cells()[2], 254);
    machine.inc_data(usize::MAX);
    assert_eq!(machine.cells()[2], 253);
    machine.dec_data(usize::MAX);
    assert_eq!(machine.cells()[2], 254);
    machine.inc_data(0);
    assert_eq!(machine.cells(), &[0, 0, 254, 0]);
}

#[test]
fn writing_repeats_the_current_cell() {
    let mut machine = Machine::with_io(4, Port::default());
    machine.inc_data(65);
    machine.write(3);
    machine.write(0);
    machine.inc_data(168);
    machine.write(1);
    assert_eq!(machine.io().out, "AAA\u{e9}");
    assert_eq!(machine.instr_ptr(), 5);
    assert_eq!(machine.cells()[2], 233);
}

#[test]
fn reading_takes_one_character_whatever_the_operand() {
    let mut machine = Machine::with_io(4, Port::reading("ab\u{e9}\u{20ac}z"));
    machine.read(5);
    assert_eq!(machine.cells()[2], b'a');
    assert_eq!(machine.io().input.len(), 4);
    machine.read(0);
    assert_eq!(machine.cells()[2], b'b');
    machine.read(1);
    assert_eq!(machine.cells()[2], 0xe9);
    machine.read(1);
    assert_eq!(machine.cells()[2], 0xac);
    assert_eq!(machine.io().input.len(), 1);
    assert_eq!(machine.instr_ptr(), 4);
}

#[test]
fn a_character_is_stored_by_its_low_byte() {
    let mut machine = Machine::with_io(2, Port::reading("\u{1F642}\u{100}\u{1ff}A"));
    machine.read(1);
    assert_eq!(machine.cells()[1], 0x42);
    machine.read(1);
    assert_eq!(machine.cells()[1], 0);
    machine.read(1);
    assert_eq!(machine.cells()[1], 255);
    machine.read(1);
    assert_eq!(machine.cells(), &[0, 65]);
    assert_eq!(machine.instr_ptr(), 4);
}

#[test]
fn a_loop_start_jumps_behind_the_end_on_zero() {
    let mut machine = Machine::with_io(4, Port::default());
    machine.loop_start_jump_if_data_zero(7);
    assert_eq!(machine.instr_ptr(), 8);
    machine.inc_data(1);
    machine.loop_start_jump_if_data_zero(20);
    assert_eq!(machine.instr_ptr(), 10);
}

#[test]
fn a_loop_end_jumps_back_on_nonzero() {
    let mut machine = Machine::with_io(4, Port::default());
    machine.loop_end_jump_if_data_not_zero(0);
    assert_eq!(machine.instr_ptr(), 1);
    machine.inc_data(1);
    machine.loop_end_jump_if_data_not_zero(0);
    assert_eq!(machine.instr_ptr(), 0);
    machine.loop_end_jump_if_data_not_zero(3);
    assert_eq!(machine.instr_ptr(), 3);
}

#[test]
fn a_reset_clears_everything_but_the_length() {
    let mut machine = Machine::with_io(6, Port::reading("x"));
    machine.read(1);
    machine.inc_ptr(2);
    machine.inc_data(9);
    machine.write(2);
    assert_eq!(machine.io().out, "\t\t");
    machine.reset();
    assert_eq!(machine.cells(), &[0u8; 6]);
    assert_eq!(machine.data_ptr(), 3);
    assert_eq!(machine.instr_ptr(), 0);
    assert_eq!(machine.io().out, "");
    assert_eq!(machine.io().flushes, 1);
}

#[test]
fn a_second_run_repeats_the_first() {
    let io = &DebugMachineIO::with_input("abab");
    let mut machine = Machine::with_io(100, io);
    let echo = UcSourceFile::from_str(",.>,.<+.", "echo");
    let codes = echo.to_byte_codes().unwrap();
    assert!(machine.eval_byte_codes(&codes, MANY));
    let first = (io.output(), machine.cells().to_vec(), machine.data_ptr(), machine.instr_ptr());
    assert_eq!(first.0, "abb");
    assert!(machine.eval_byte_codes(&codes, MANY));
    let second = (io.output(), machine.cells().to_vec(), machine.data_ptr(), machine.instr_ptr());
    assert_eq!(first, second);
}

#[test]
fn an_earlier_run_leaves_no_trace() {
    let fresh = by_tokens(HELLO_WORLD, "", 300);
    let io = &DebugMachineIO::with_input("");
    let mut machine = Machine::with_io(300, io);
    let other = UcSourceFile::from_str("+++++[>+++++++<-]>.<<<<----.", "other");
    assert!(machine.eval_source_file(&other, MANY).unwrap());
    assert_eq!(io.output(), "#\u{fc}");
    let hello = UcSourceFile::from_str(HELLO_WORLD, "hello");
    assert!(machine.eval_source_file(&hello, MANY).unwrap());
    assert_eq!((io.output(), io.unread(), machine.cells().to_vec(), machine.data_ptr()), fresh);
    let codes = hello.to_byte_codes().unwrap();
    assert!(machine.eval_byte_codes(&other.to_byte_codes().unwrap(), MANY));
    assert!(machine.eval_byte_codes(&codes, MANY));
    assert_eq!((io.output(), io.unread(), machine.cells().to_vec(), machine.data_ptr()), fresh);
}

#[test]
fn both_modes_agree() {
    let programs = [
        ("", ""),
        ("just a comment\n", ""),
        (HELLO_WORLD, ""),
        (",[.,]", "echo this\0"),
        (",>,<[->+<]>.", "\u{21}\u{22}"),
        ("+++[>+++[>+++<-]<-]>>.<<<<<<<<<<<<-.", ""),
        (">>>>>>>>>>>>+.<<<<<<<<<<<<<<<<<<<<<<<<<<<<<<<<<<<-.", ""),
        ("-[------->+<]>-.-[->+++++<]>++.+++++++..+++.[--->+<]>-----.", ""),
        ("[never run ,,,, ....]+[-]++++++++++.", "zz"),
        ("+ e\u{301} + \r\n + [ - ] üü + .", ""),
        (",----------[++++++++++.,----------]", "line\nrest"),
    ];
    for (src, input) in programs {
        for cell_size in [300usize, 30_000] {
            assert_eq!(
                by_tokens(src, input, cell_size),
                by_codes(src, input, cell_size),
                "src: {}, cells: {}",
                src,
                cell_size
            );
        }
    }
}

#[test]
fn both_modes_agree_on_short_tapes() {
    for (src, input) in [
        ("+>++>+++>++++>+++++.<.<.<.<.", ""),
        ("<<<<<<<,>>>>>>>>>>>>>>.", "w"),
        ("->+<[-]>.>>.", ""),
        (",[>,]<[.<]", "abc\0"),
    ] {
        for cell_size in [1usize, 2, 3, 5] {
            assert_eq!(
                by_tokens(src, input, cell_size),
                by_codes(src, input, cell_size),
                "src: {}, cells: {}",
                src,
                cell_size
            );
        }
    }
    assert_eq!(by_codes("+>++>+++.", "", 2).0, "\u{4}");
    assert_eq!(by_codes("+>++>+++.", "", 1).0, "\u{6}");
}

#[test]
fn a_run_of_reads_is_one_read_as_a_byte_code() {
    let (output, unread, _, _) = by_tokens(",,.", "ab", 10);
    assert_eq!((output.as_str(), unread), ("b", 0));
    let (output, unread, _, _) = by_codes(",,.", "ab", 10);
    assert_eq!((output.as_str(), unread), ("a", 1));
}

#[test]
fn a_folded_run_does_what_its_tokens_do() {
    for (src, kind, arg) in [
        ("+++++++", ByteCodeKind::IncData, 7),
        ("---", ByteCodeKind::DecData, 3),
        (">>>>>>>>>>>>", ByteCodeKind::IncPtr, 12),
        ("<<<<<<<<<", ByteCodeKind::DecPtr, 9),
        ("....", ByteCodeKind::Write, 4),
        (",", ByteCodeKind::Read, 1),
    ] {
        let tokens = by_tokens(src, "q", 5);
        let mut machine = Machine::with_io(5, Port::reading("q"));
        let code = ByteCode::make_non_jump_code(
            kind,
            SourcePosition::new(0, 0, RawContentIndex::new(0)),
            arg,
        );
        machine.execute(&code);
        assert_eq!(machine.instr_ptr(), 1);
        assert_eq!(
            (
                machine.io().out.clone(),
                machine.io().input.len(),
                machine.cells().to_vec(),
                machine.data_ptr()
            ),
            tokens,
            "src: {}",
            src
        );
        let src_file = UcSourceFile::from_str(src, "");
        assert_eq!(src_file.to_byte_codes().unwrap(), vec![code]);
    }
}

#[test]
fn an_unmatched_bracket_stops_both_modes_before_they_start() {
    for (src, by_token, by_code) in [
        ("+.]", ExtraParen::Right(2), ExtraParen::Right(2)),
        ("+++.[", ExtraParen::Left(4), ExtraParen::Left(2)),
        ("..[[..]x", ExtraParen::Left(2), ExtraParen::Left(1)),
        ("a]]", ExtraParen::Right(1), ExtraParen::Right(0)),
    ] {
        let io = &DebugMachineIO::with_input("");
        let mut machine = Machine::with_io(8, io);
        machine.inc_data(70);
        machine.write(1);
        let src_file = UcSourceFile::from_str(src, "faulty");
        match machine.eval_source_file(&src_file, MANY) {
            Err(UcSourceFileError::UnmatchedParen { src_file: source, details }) => {
                assert_eq!(source, &src_file);
                assert_eq!(details, by_token, "src: {}", src);
            }
            other => panic!("src: {}, {:?}", src, other),
        }
        assert_eq!(io.output(), "");
        assert_eq!(machine.cells(), &[0u8; 8]);
        assert_eq!(machine.data_ptr(), 4);
        assert_eq!(machine.instr_ptr(), 0);
        match src_file.to_byte_codes() {
            Err(UcSourceFileError::UnmatchedParen { details, .. }) => {
                assert_eq!(details, by_code, "src: {}", src)
            }
            other => panic!("src: {}, {:?}", src, other),
        }
    }
}

#[test]
fn a_run_stops_when_its_steps_are_used_up() {
    let io = &DebugMachineIO::with_input("");
    let mut machine = Machine::with_io(8, io);
    let forever = UcSourceFile::from_str("+[.]", "forever");
    assert_eq!(machine.eval_source_file(&forever, 11), Ok(false));
    assert_eq!(io.output(), "\u{1}\u{1}\u{1}");
    assert_eq!(machine.instr_ptr(), 2);
    let codes = forever.to_byte_codes().unwrap();
    assert!(!machine.eval_byte_codes(&codes, 12));
    assert_eq!(io.output(), "\u{1}\u{1}\u{1}\u{1}");
    assert_eq!(machine.instr_ptr(), 3);
    assert!(!machine.eval_byte_codes(&codes, 0));
    assert_eq!(io.output(), "");
    assert_eq!(machine.instr_ptr(), 0);
}

#[test]
fn a_run_in_pieces_is_the_run() {
    let src = ",[.>,]<[.<]+[>+<-]>.";
    let whole_tokens = by_tokens(src, "pieces\0", 40);
    let whole_codes = by_codes(src, "pieces\0", 40);
    assert_eq!(whole_tokens.0, "piecesseceipq");
    for piece in [1usize, 2, 3, 7, 1000] {
        let io = &DebugMachineIO::with_input("pieces\0");
        let mut machine = Machine::with_io(40, io);
        let src_file = UcSourceFile::from_str(src, "");
        let mut finished = machine.eval_source_file(&src_file, piece).unwrap();
        let mut pieces = 1;
        while !finished {
            finished = machine.resume_source_file(&src_file, piece).unwrap();
            pieces += 1;
        }
        assert_eq!(pieces == 1, piece == 1000);
        assert_eq!(
            (io.output(), io.unread(), machine.cells().to_vec(), machine.data_ptr()),
            whole_tokens
        );
        assert_eq!(machine.resume_source_file(&src_file, piece), Ok(true));
        assert_eq!(io.output(), whole_tokens.0);

        let io = &DebugMachineIO::with_input("pieces\0");
        let mut machine = Machine::with_io(40, io);
        let byte_codes = src_file.to_byte_codes().unwrap();
        let mut finished = machine.eval_byte_codes(&byte_codes, piece);
        while !finished {
            finished = machine.resume_byte_codes(&byte_codes, piece);
        }
        assert_eq!(
            (io.output(), io.unread(), machine.cells().to_vec(), machine.data_ptr()),
            whole_codes
        );
        assert_eq!(machine.instr_ptr(), byte_codes.len());
    }
}

#[test]
fn resuming_a_faulty_source_changes_nothing() {
    let mut machine = Machine::with_io(4, Port::reading("k"));
    machine.read(1);
    machine.write(2);
    let faulty = UcSourceFile::from_str("+]", "");
    assert!(machine.resume_source_file(&faulty, MANY).is_err());
    assert_eq!(machine.cells(), &[0, 0, b'k', 0]);
    assert_eq!(machine.instr_ptr(), 2);
    assert_eq!(machine.io().out, "kk");
    assert_eq!(machine.io().flushes, 0);
}

#[test]
fn a_run_finishes_with_its_last_step() {
    let io = &DebugMachineIO::with_input("");
    let mut machine = Machine::with_io(8, io);
    let three = UcSourceFile::from_str("+ +.", "three");
    assert_eq!(machine.eval_source_file(&three, 3), Ok(false));
    assert_eq!(io.output(), "");
    assert_eq!(machine.eval_source_file(&three, 4), Ok(true));
    assert_eq!(io.output(), "\u{2}");
    let codes = three.to_byte_codes().unwrap();
    assert_eq!(codes.len(), 3);
    assert!(!machine.eval_byte_codes(&codes, 2));
    assert!(machine.eval_byte_codes(&codes, 3));
    assert_eq!(io.output(), "\u{2}");
    assert_eq!(machine.instr_ptr(), 3);
}

#[test]
fn an_empty_program_finishes_at_once() {
    let mut machine = Machine::with_io(3, Port::default());
    assert!(machine.eval_byte_codes(&[], 0));
    let nothing = UcSourceFile::from_str("", "");
    assert_eq!(machine.eval_source_file(&nothing, 0), Ok(true));
    assert_eq!(machine.into_io().flushes, 2);
}

#[test]
fn only_resolved_programs_are_runnable() {
    let at = |n: usize| SourcePosition::new(0, n, RawContentIndex::new(n));
    let plain = ByteCode::make_non_jump_code(ByteCodeKind::IncData, at(0), usize::MAX);
    let open = ByteCode::make_uninit_jump_code(ByteCodeKind::LoopStartJumpIfDataZero, at(1));
    let mut into = open.clone();
    into.correct_jump(UcContentIndex::new(1));
    let mut out = open.clone();
    out.correct_jump(UcContentIndex::new(2));
    assert!(is_runnable(&[]));
    assert!(is_runnable(&[plain.clone()]));
    assert!(is_runnable(&[plain.clone(), into.clone()]));
    assert!(!is_runnable(&[plain.clone(), open]));
    assert!(!is_runnable(&[plain.clone(), out.clone()]));
    assert!(is_runnable(&[plain, out, into]));
}

#[test]
fn the_tape_keeps_its_length() {
    for cell_size in [1usize, 2, 3, 64] {
        let (_, _, cells, data_ptr) = by_codes("+>++>+++<<<<<<<<-", "", cell_size);
        assert_eq!(cells.len(), cell_size);
        assert!(data_ptr < cell_size);
    }
    let (_, _, cells, data_ptr) = by_tokens("<<<+>>>>>>>-", "", 4);
    assert_eq!(cells, vec![0, 0, 255, 1]);
    assert_eq!(data_ptr, 2);
}

//! The machine: a tape of bytes, a data pointer, an instruction pointer and a
//! port, executing the tokens of a source or its byte codes.

use crate::byte_code::{views_of, ByteCode, ByteCodeKind};
use crate::machine_io::MachineIO;
use crate::machine_model::{
    lemma_run_codes_halted, lemma_run_codes_reads_prefix, lemma_run_symbols_halted,
    lemma_run_symbols_reads_prefix, on_tape, runnable, symbol_roles, MachineModel,
};
use crate::source_file::{token_views, UcSourceFile, UcSourceFileError};
use crate::symbol::Symbol;
use crate::utility::{
    balanced, first_unmatched_end, is_table_of, last_unmatched_start,
    lemma_table_gives_partner, populate_loop_boundaries, roles_of, ExtraParen,
};
use vstd::arithmetic::div_mod::{
    lemma_add_mod_noop_right, lemma_mod_add_multiples_vanish, lemma_mod_sub_multiples_vanish,
    lemma_small_mod, lemma_sub_mod_noop_right,
};
use vstd::prelude::*;

verus! {

/// Whether `byte_codes` can be executed: every operand is set and every jump
/// leads to one of them.
pub fn is_runnable(byte_codes: &[ByteCode]) -> (b: bool)
    ensures
        b == runnable(views_of(byte_codes@)),
{
    let mut i: usize = 0;
    while i < byte_codes.len()
        invariant
            i <= byte_codes.len(),
            forall|j: int|
                0 <= j < i ==> match (#[trigger] views_of(byte_codes@)[j]).arg {
                    Some(arg) => views_of(byte_codes@)[j].kind.is_jump() ==> arg < byte_codes.len(),
                    None => false,
                },
        decreases byte_codes.len() - i,
    {
        let ok = match byte_codes[i].arg() {
            Some(arg) => !byte_codes[i].kind().jumps() || arg < byte_codes.len(),
            None => false,
        };
        if !ok {
            assert(views_of(byte_codes@)[i as int] == byte_codes[i as int]@);
            return false;
        }
        assert(views_of(byte_codes@)[i as int] == byte_codes[i as int]@);
        i += 1;
    }
    true
}

/// A machine with a tape of fixed length and the port `io`.
#[derive(Debug)]
pub struct Machine<IO> {
    cells: Vec<u8>,
    data_ptr: usize,
    instr_ptr: usize,
    io: IO,
}

impl<IO: MachineIO> View for Machine<IO> {
    type V = MachineModel;

    closed spec fn view(&self) -> MachineModel {
        MachineModel {
            cells: self.cells@,
            data_ptr: self.data_ptr as int,
            instr_ptr: self.instr_ptr as int,
            emitted: self.io.written(),
            consumed: self.io.taken().len() as int,
        }
    }
}

impl<IO: MachineIO> Machine<IO> {
    /// The port.
    pub closed spec fn port(&self) -> IO {
        self.io
    }

    /// The characters that the port has handed over since the last reset, in
    /// order.
    pub open spec fn inputs(&self) -> Seq<char> {
        self.port().taken()
    }

    /// What the machine holds is what its port has recorded.
    pub proof fn lemma_port(&self)
        ensures
            self@.emitted == self.port().written(),
            self@.consumed == self.port().taken().len(),
    {
    }

    /// The data pointer is on the tape, and the count of characters read is
    /// the length of their record.
    pub open spec fn wf(&self) -> bool {
        &&& self@.wf()
        &&& self@.cells.len() <= usize::MAX
        &&& self@.instr_ptr <= usize::MAX
        &&& self@.consumed == self.inputs().len()
    }

    /// A machine with a tape of `cell_size` zeros, the data pointer in its
    /// middle and the instruction pointer at 0. The port is taken as it is:
    /// it is flushed by `reset` and by each evaluation.
    pub fn with_io(cell_size: usize, io: IO) -> (machine: Self)
        requires
            cell_size > 0,
        ensures
            machine.wf(),
            machine.port() == io,
            machine@ == (MachineModel {
                emitted: io.written(),
                consumed: io.taken().len() as int,
                ..MachineModel::fresh(cell_size as int)
            }),
    {
        let machine = Self {
            cells: vec![0u8; cell_size],
            data_ptr: Self::reset_data_ptr(cell_size),
            instr_ptr: Self::reset_instr_ptr(),
            io,
        };
        assert(machine@.cells =~= MachineModel::fresh(cell_size as int).cells);
        machine
    }

    fn reset_data_ptr(cell_size: usize) -> (data_ptr: usize)
        ensures
            data_ptr == cell_size as int / 2,
    {
        cell_size / 2
    }

    fn reset_instr_ptr() -> (instr_ptr: usize)
        ensures
            instr_ptr == 0,
    {
        0
    }

    /// Makes the machine ready for another run: every cell 0, the data
    /// pointer in the middle of the tape, the instruction pointer at 0, the
    /// port flushed, the record of what was written and read empty.
    pub fn reset(&mut self)
        requires
            old(self).wf(),
        ensures
            final(self).wf(),
            final(self)@ == old(self)@.reset(),
            final(self).inputs() == Seq::<char>::empty(),
    {
        let n = self.cells.len();
        let mut i: usize = 0;
        while i < n
            invariant
                i <= n == self.cells.len(),
                forall|j: int| 0 <= j < i ==> self.cells[j] == 0,
            decreases n - i,
        {
            self.cells[i] = 0;
            i += 1;
        }
        self.data_ptr = Self::reset_data_ptr(n);
        self.instr_ptr = Self::reset_instr_ptr();
        self.io.flush_all();
        assert(self@.cells =~= MachineModel::fresh(n as int).cells);
    }

    /// `.` Writes the current cell as a character, `arg` times.
    pub fn write(&mut self, arg: usize)
        requires
            old(self).wf(),
            old(self)@.instr_ptr < usize::MAX,
        ensures
            final(self).wf(),
            final(self)@ == old(self)@.write(arg as int),
            final(self).inputs() == old(self).inputs(),
    {
        let c = self.cells[self.data_ptr] as char;
        self.io.out_char_n_times(c, arg);
        self.instr_ptr += 1;
        assert(self@.emitted =~= old(self)@.write(arg as int).emitted);
    }

    /// `,` Takes one character from the port, whatever `_arg` is, and stores
    /// its code in the current cell. A code above 255 is cut down to its
    /// lowest eight bits.
    pub fn read(&mut self, _arg: usize)
        requires
            old(self).wf(),
            old(self)@.instr_ptr < usize::MAX,
        ensures
            final(self).wf(),
            final(self).inputs().len() == old(self).inputs().len() + 1,
            final(self).inputs().drop_last() == old(self).inputs(),
            final(self)@ == old(self)@.read(final(self).inputs().last()),
    {
        let c = self.io.in_char();
        let code: u32 = c as u32;
        let data_ptr = self.data_ptr;
        self.cells[data_ptr] = (code % 256) as u8;
        self.instr_ptr += 1;
        assert(self.inputs().drop_last() =~= old(self).inputs());
    }

    /// `>` Moves the data pointer `arg` cells to the right, around the end of
    /// the tape.
    pub fn inc_ptr(&mut self, arg: usize)
        requires
            old(self).wf(),
            old(self)@.instr_ptr < usize::MAX,
        ensures
            final(self).wf(),
            final(self)@ == old(self)@.inc_ptr(arg as int),
            final(self).inputs() == old(self).inputs(),
    {
        let len = self.cells.len();
        let by = arg % len;
        let room = len - self.data_ptr;
        proof {
            reveal(on_tape);
            let to = self.data_ptr + by;
            lemma_add_mod_noop_right(self.data_ptr as int, arg as int, len as int);
            if by < room {
                lemma_small_mod(to as nat, len as nat);
            } else {
                lemma_mod_sub_multiples_vanish(to, len as int);
                lemma_small_mod((to - len) as nat, len as nat);
            }
        }
        self.data_ptr = if by < room {
            self.data_ptr + by
        } else {
            by - room
        };
        self.instr_ptr += 1;
    }

    /// `<` Moves the data pointer `arg` cells to the left, around the start
    /// of the tape.
    pub fn dec_ptr(&mut self, arg: usize)
        requires
            old(self).wf(),
            old(self)@.instr_ptr < usize::MAX,
        ensures
            final(self).wf(),
            final(self)@ == old(self)@.dec_ptr(arg as int),
            final(self).inputs() == old(self).inputs(),
    {
        let len = self.cells.len();
        let by = arg % len;
        proof {
            reveal(on_tape);
            let to = self.data_ptr - by;
            lemma_sub_mod_noop_right(self.data_ptr as int, arg as int, len as int);
            if by <= self.data_ptr {
                lemma_small_mod(to as nat, len as nat);
            } else {
                lemma_mod_add_multiples_vanish(to, len as int);
                lemma_small_mod((to + len) as nat, len as nat);
            }
        }
        self.data_ptr = if by <= self.data_ptr {
            self.data_ptr - by
        } else {
            len - (by - self.data_ptr)
        };
        self.instr_ptr += 1;
    }

    /// `+` Adds `arg` to the current cell, modulo 256.
    pub fn inc_data(&mut self, arg: usize)
        requires
            old(self).wf(),
            old(self)@.instr_ptr < usize::MAX,
        ensures
            final(self).wf(),
            final(self)@ == old(self)@.inc_data(arg as int),
            final(self).inputs() == old(self).inputs(),
    {
        let data_ptr = self.data_ptr;
        let sum: usize = self.cells[data_ptr] as usize + arg % 256;
        self.cells[data_ptr] = (sum % 256) as u8;
        self.instr_ptr += 1;
    }

    /// `-` Subtracts `arg` from the current cell, modulo 256.
    pub fn dec_data(&mut self, arg: usize)
        requires
            old(self).wf(),
            old(self)@.instr_ptr < usize::MAX,
        ensures
            final(self).wf(),
            final(self)@ == old(self)@.dec_data(arg as int),
            final(self).inputs() == old(self).inputs(),
    {
        let data_ptr = self.data_ptr;
        let difference: usize = self.cells[data_ptr] as usize + 256 - arg % 256;
        self.cells[data_ptr] = (difference % 256) as u8;
        self.instr_ptr += 1;
    }

    /// `[` Where the current cell is 0, goes to the instruction behind
    /// `end_ptr`, the matching `]`; otherwise to the next instruction.
    pub fn loop_start_jump_if_data_zero(&mut self, end_ptr: usize)
        requires
            old(self).wf(),
            old(self)@.instr_ptr < usize::MAX,
            end_ptr < usize::MAX,
        ensures
            final(self).wf(),
            final(self)@ == old(self)@.loop_start(end_ptr as int),
            final(self).inputs() == old(self).inputs(),
    {
        if self.cells[self.data_ptr] == 0 {
            self.instr_ptr = end_ptr + 1;
        } else {
            self.instr_ptr += 1;
        }
    }

    /// `]` Where the current cell is not 0, goes back to `start_ptr`, the
    /// matching `[`; otherwise to the next instruction.
    pub fn loop_end_jump_if_data_not_zero(&mut self, start_ptr: usize)
        requires
            old(self).wf(),
            old(self)@.instr_ptr < usize::MAX,
        ensures
            final(self).wf(),
            final(self)@ == old(self)@.loop_end(start_ptr as int),
            final(self).inputs() == old(self).inputs(),
    {
        if self.cells[self.data_ptr] != 0 {
            self.instr_ptr = start_ptr;
        } else {
            self.instr_ptr += 1;
        }
    }

    /// Executes `code`.
    pub fn execute(&mut self, code: &ByteCode)
        requires
            old(self).wf(),
            old(self)@.instr_ptr < usize::MAX,
            match code@.arg {
                Some(arg) => code@.kind.is_jump() ==> arg < usize::MAX,
                None => false,
            },
        ensures
            final(self).wf(),
            old(self).inputs().is_prefix_of(final(self).inputs()),
            final(self)@ == old(self)@.execute(code@, final(self).inputs()),
    {
        let arg = code.arg().unwrap();
        match code.kind() {
            ByteCodeKind::Write => self.write(arg),
            ByteCodeKind::Read => self.read(arg),
            ByteCodeKind::IncPtr => self.inc_ptr(arg),
            ByteCodeKind::DecPtr => self.dec_ptr(arg),
            ByteCodeKind::IncData => self.inc_data(arg),
            ByteCodeKind::DecData => self.dec_data(arg),
            ByteCodeKind::LoopStartJumpIfDataZero => self.loop_start_jump_if_data_zero(arg),
            ByteCodeKind::LoopEndJumpIfDataNotZero => self.loop_end_jump_if_data_not_zero(arg),
        }
    }

    /// Resets the machine and executes `byte_codes` from the first one on,
    /// until none is left or `max_steps` of them are done. Says whether none
    /// is left; if some are, `resume_byte_codes` goes on.
    pub fn eval_byte_codes(&mut self, byte_codes: &[ByteCode], max_steps: usize) -> (finished: bool)
        requires
            old(self).wf(),
            runnable(views_of(byte_codes@)),
        ensures
            final(self).wf(),
            final(self)@ == old(self)@.reset().run_codes(
                views_of(byte_codes@),
                final(self).inputs(),
                max_steps as nat,
            ),
            finished == final(self)@.halted(byte_codes@.len() as int),
    {
        self.reset();
        self.resume_byte_codes(byte_codes, max_steps)
    }

    /// Executes `byte_codes` from where the machine stands, until none is
    /// left or `max_steps` of them are done. Says whether none is left.
    pub fn resume_byte_codes(&mut self, byte_codes: &[ByteCode], max_steps: usize) -> (finished:
        bool)
        requires
            old(self).wf(),
            runnable(views_of(byte_codes@)),
        ensures
            final(self).wf(),
            old(self).inputs().is_prefix_of(final(self).inputs()),
            final(self)@ == old(self)@.run_codes(
                views_of(byte_codes@),
                final(self).inputs(),
                max_steps as nat,
            ),
            finished == final(self)@.halted(byte_codes@.len() as int),
    {
        let ghost codes = views_of(byte_codes@);
        let ghost start = self@;
        let ghost given = self.inputs();
        let mut steps: usize = 0;
        while steps < max_steps && self.instr_ptr < byte_codes.len()
            invariant
                self.wf(),
                start.wf(),
                steps <= max_steps,
                codes == views_of(byte_codes@),
                runnable(codes),
                given.is_prefix_of(self.inputs()),
                self@ == start.run_codes(codes, self.inputs(), steps as nat),
            decreases max_steps - steps,
        {
            let ghost before = self.inputs();
            let code = &byte_codes[self.instr_ptr];
            assert(code@ == codes[self.instr_ptr as int]);
            self.execute(code);
            proof {
                reveal(MachineModel::step_codes);
                lemma_run_codes_reads_prefix(start, codes, before, self.inputs(), steps as nat);
            }
            steps += 1;
        }
        proof {
            if steps < max_steps {
                lemma_run_codes_halted(
                    start,
                    codes,
                    self.inputs(),
                    steps as nat,
                    (max_steps - steps) as nat,
                );
            }
        }
        self.instr_ptr >= byte_codes.len()
    }

    /// Goes past a token that is no instruction.
    fn skip(&mut self)
        requires
            old(self).wf(),
            old(self)@.instr_ptr < usize::MAX,
        ensures
            final(self).wf(),
            final(self)@ == old(self)@.skip(),
            final(self).inputs() == old(self).inputs(),
    {
        self.instr_ptr += 1;
    }

    /// Resets the machine, matches the loop brackets of `src_file`, and
    /// executes its tokens from the first one on, each instruction once,
    /// until no token is left or `max_steps` of them are done. Says whether
    /// none is left; if some are, `resume_source_file` goes on. Where a
    /// bracket has no partner, no token is executed; the index in the error
    /// counts tokens.
    pub fn eval_source_file<'a>(&mut self, src_file: &'a UcSourceFile, max_steps: usize) -> (r:
        Result<bool, UcSourceFileError<'a>>)
        requires
            old(self).wf(),
        ensures
            final(self).wf(),
            r is Ok <==> balanced(symbol_roles(src_file@.symbols())),
            match r {
                Ok(finished) => {
                    &&& final(self)@ == old(self)@.reset().run_symbols(
                        src_file@.symbols(),
                        final(self).inputs(),
                        max_steps as nat,
                    )
                    &&& finished == final(self)@.halted(src_file@.tokens.len() as int)
                },
                Err(UcSourceFileError::UnmatchedParen { src_file: source, details }) => {
                    &&& source@ == src_file@
                    &&& final(self)@ == old(self)@.reset()
                    &&& final(self).inputs() == Seq::<char>::empty()
                    &&& match details {
                        ExtraParen::Right(e) => first_unmatched_end(
                            symbol_roles(src_file@.symbols()),
                            e as int,
                        ),
                        ExtraParen::Left(s) => last_unmatched_start(
                            symbol_roles(src_file@.symbols()),
                            s as int,
                        ),
                    }
                },
                Err(UcSourceFileError::FileFailToRead { .. }) => false,
            },
    {
        self.reset();
        self.resume_source_file(src_file, max_steps)
    }

    /// Matches the loop brackets of `src_file` and executes its tokens from
    /// where the machine stands, until no token is left or `max_steps` of
    /// them are done. Says whether none is left. Where a bracket has no
    /// partner, nothing is done.
    pub fn resume_source_file<'a>(&mut self, src_file: &'a UcSourceFile, max_steps: usize) -> (r:
        Result<bool, UcSourceFileError<'a>>)
        requires
            old(self).wf(),
        ensures
            final(self).wf(),
            r is Ok <==> balanced(symbol_roles(src_file@.symbols())),
            old(self).inputs().is_prefix_of(final(self).inputs()),
            match r {
                Ok(finished) => {
                    &&& final(self)@ == old(self)@.run_symbols(
                        src_file@.symbols(),
                        final(self).inputs(),
                        max_steps as nat,
                    )
                    &&& finished == final(self)@.halted(src_file@.tokens.len() as int)
                },
                Err(UcSourceFileError::UnmatchedParen { src_file: source, details }) => {
                    &&& source@ == src_file@
                    &&& final(self)@ == old(self)@
                    &&& final(self).inputs() == old(self).inputs()
                    &&& match details {
                        ExtraParen::Right(e) => first_unmatched_end(
                            symbol_roles(src_file@.symbols()),
                            e as int,
                        ),
                        ExtraParen::Left(s) => last_unmatched_start(
                            symbol_roles(src_file@.symbols()),
                            s as int,
                        ),
                    }
                },
                Err(UcSourceFileError::FileFailToRead { .. }) => false,
            },
    {
        let ghost symbols = src_file@.symbols();
        let ghost roles = symbol_roles(symbols);
        let ghost start = self@;
        let ghost given = self.inputs();
        let tokens = src_file.tokens();
        assert(roles_of(tokens@) =~= roles);
        let loop_matches = match populate_loop_boundaries(tokens) {
            Ok(loop_matches) => loop_matches,
            Err(e) => {
                return Err(UcSourceFileError::UnmatchedParen { src_file, details: e });
            },
        };
        let mut steps: usize = 0;
        while steps < max_steps && self.instr_ptr < tokens.len()
            invariant
                self.wf(),
                start.wf(),
                steps <= max_steps,
                symbols == src_file@.symbols(),
                roles == symbol_roles(symbols),
                token_views(tokens@) == src_file@.tokens,
                balanced(roles),
                is_table_of(loop_matches@, roles),
                given.is_prefix_of(self.inputs()),
                self@ == start.run_symbols(symbols, self.inputs(), steps as nat),
            decreases max_steps - steps,
        {
            let ghost before = self.inputs();
            let instr_ptr = self.instr_ptr;
            let symbol = tokens[instr_ptr].classify();
            assert(symbol == symbols[instr_ptr as int]);
            match symbol {
                Symbol::Write => self.write(1),
                Symbol::Read => self.read(1),
                Symbol::IncPtr => self.inc_ptr(1),
                Symbol::DecPtr => self.dec_ptr(1),
                Symbol::IncData => self.inc_data(1),
                Symbol::DecData => self.dec_data(1),
                Symbol::LoopStart => {
                    proof {
                        lemma_table_gives_partner(loop_matches@, roles, instr_ptr);
                    }
                    self.loop_start_jump_if_data_zero(loop_matches.get_matching_end(instr_ptr))
                },
                Symbol::LoopEnd => {
                    proof {
                        lemma_table_gives_partner(loop_matches@, roles, instr_ptr);
                    }
                    self.loop_end_jump_if_data_not_zero(loop_matches.get_matching_start(instr_ptr))
                },
                Symbol::Newline => self.skip(),
                Symbol::Other => self.skip(),
            }
            proof {
                reveal(MachineModel::step_symbols);
                lemma_run_symbols_reads_prefix(start, symbols, before, self.inputs(), steps as nat);
            }
            steps += 1;
        }
        proof {
            if steps < max_steps {
                lemma_run_symbols_halted(
                    start,
                    symbols,
                    self.inputs(),
                    steps as nat,
                    (max_steps - steps) as nat,
                );
            }
        }
        Ok(self.instr_ptr >= tokens.len())
    }

    /// The tape.
    pub fn cells(&self) -> (cells: &[u8])
        ensures
            cells@ == self@.cells,
    {
        self.cells.as_slice()
    }

    /// The index of the current cell.
    pub fn data_ptr(&self) -> (data_ptr: usize)
        ensures
            data_ptr == self@.data_ptr,
    {
        self.data_ptr
    }

    /// The index of the next instruction.
    pub fn instr_ptr(&self) -> (instr_ptr: usize)
        ensures
            instr_ptr == self@.instr_ptr,
    {
        self.instr_ptr
    }

    /// The port.
    pub fn io(&self) -> (io: &IO)
        ensures
            *io == self.port(),
    {
        &self.io
    }

    /// Gives up the machine for its port.
    pub fn into_io(self) -> (io: IO)
        ensures
            io == self.port(),
    {
        self.io
    }
}

} // verus!

//! The machine as a value: what each instruction does to it, and where a
//! program takes it.

use crate::byte_code::{ByteCodeKind, ByteCodeView};
use crate::symbol::Symbol;
use crate::utility::{balanced, lemma_partner, partner, LoopRole};
use vstd::prelude::*;

verus! {

/// The state of a machine.
pub ghost struct MachineModel {
    /// The tape.
    pub cells: Seq<u8>,
    /// The index of the current cell.
    pub data_ptr: int,
    /// The index of the next instruction.
    pub instr_ptr: int,
    /// The characters written since the last reset, in order.
    pub emitted: Seq<char>,
    /// The number of characters read since the last reset.
    pub consumed: int,
}

/// The character that stands at place `i` of an input stream. The machine
/// asks for no character before it needs one, so the streams that a run is
/// stated over hold every character that the run reads; for a place behind
/// the end this says the character of code 0.
pub open spec fn input_at(inputs: Seq<char>, i: int) -> char {
    if 0 <= i < inputs.len() {
        inputs[i]
    } else {
        '\0'
    }
}

/// The index of the cell that lies `i` cells to the right of the first one,
/// on a tape of `len` cells whose ends are joined.
#[verifier::opaque]
pub open spec fn on_tape(i: int, len: int) -> int {
    i % len
}

/// An index on the tape stands for itself; others are brought onto the tape;
/// and a step from an index leads where a step from any of its like leads.
pub proof fn lemma_on_tape(i: int, len: int)
    requires
        0 < len,
    ensures
        0 <= on_tape(i, len) < len,
        0 <= i < len ==> on_tape(i, len) == i,
        on_tape(on_tape(i, len) + 1, len) == on_tape(i + 1, len),
        on_tape(on_tape(i, len) - 1, len) == on_tape(i - 1, len),
{
    reveal(on_tape);
    vstd::arithmetic::div_mod::lemma_mod_bound(i, len);
    if 0 <= i < len {
        vstd::arithmetic::div_mod::lemma_small_mod(i as nat, len as nat);
    }
    vstd::arithmetic::div_mod::lemma_add_mod_noop(i, 1, len);
    vstd::arithmetic::div_mod::lemma_add_mod_noop_right(i % len, 1, len);
    vstd::arithmetic::div_mod::lemma_sub_mod_noop(i, 1, len);
    vstd::arithmetic::div_mod::lemma_sub_mod_noop_right(i % len, 1, len);
}

/// The role of a token with the meaning `symbol` in loop matching.
pub open spec fn symbol_role(symbol: Symbol) -> LoopRole {
    match symbol {
        Symbol::LoopStart => LoopRole::Start,
        Symbol::LoopEnd => LoopRole::End,
        _ => LoopRole::Neither,
    }
}

/// The roles of the tokens of a source in loop matching.
pub open spec fn symbol_roles(symbols: Seq<Symbol>) -> Seq<LoopRole> {
    symbols.map_values(|s: Symbol| symbol_role(s))
}

/// Every operand is set, and every jump leads to an instruction of `codes`.
pub open spec fn runnable(codes: Seq<ByteCodeView>) -> bool {
    forall|j: int|
        0 <= j < codes.len() ==> match (#[trigger] codes[j]).arg {
            Some(arg) => codes[j].kind.is_jump() ==> arg < codes.len(),
            None => false,
        }
}

impl MachineModel {
    /// The data pointer is on the tape, and nothing is negative.
    pub open spec fn wf(self) -> bool {
        &&& 0 <= self.data_ptr < self.cells.len()
        &&& 0 <= self.instr_ptr
        &&& 0 <= self.consumed
    }

    /// The machine after a reset: a tape of `cell_size` zeros, the data pointer
    /// in its middle, the instruction pointer at 0, nothing written or read.
    pub open spec fn fresh(cell_size: int) -> MachineModel {
        MachineModel {
            cells: Seq::new(cell_size as nat, |i: int| 0u8),
            data_ptr: cell_size / 2,
            instr_ptr: 0,
            emitted: Seq::empty(),
            consumed: 0,
        }
    }

    /// The machine after a reset: as new, with a tape as long as before.
    pub open spec fn reset(self) -> MachineModel {
        MachineModel::fresh(self.cells.len() as int)
    }

    /// The value of the current cell.
    pub open spec fn current(self) -> u8 {
        self.cells[self.data_ptr]
    }

    /// The machine with `value` in the current cell and the instruction
    /// pointer one further.
    pub open spec fn stored(self, value: u8) -> MachineModel {
        MachineModel {
            cells: self.cells.update(self.data_ptr, value),
            instr_ptr: self.instr_ptr + 1,
            ..self
        }
    }

    /// Moves the data pointer `n` cells forward, around the end of the tape.
    pub open spec fn inc_ptr(self, n: int) -> MachineModel {
        MachineModel {
            data_ptr: on_tape(self.data_ptr + n, self.cells.len() as int),
            instr_ptr: self.instr_ptr + 1,
            ..self
        }
    }

    /// Moves the data pointer `n` cells backward, around the start of the tape.
    pub open spec fn dec_ptr(self, n: int) -> MachineModel {
        MachineModel {
            data_ptr: on_tape(self.data_ptr - n, self.cells.len() as int),
            instr_ptr: self.instr_ptr + 1,
            ..self
        }
    }

    /// Adds `n` to the current cell, modulo 256.
    pub open spec fn inc_data(self, n: int) -> MachineModel {
        self.stored(((self.current() + n) % 256) as u8)
    }

    /// Subtracts `n` from the current cell, modulo 256.
    pub open spec fn dec_data(self, n: int) -> MachineModel {
        self.stored(((self.current() - n) % 256) as u8)
    }

    /// Writes the current cell as a character, `n` times.
    pub open spec fn write(self, n: int) -> MachineModel {
        MachineModel {
            emitted: self.emitted + Seq::new(n as nat, |i: int| self.current() as char),
            instr_ptr: self.instr_ptr + 1,
            ..self
        }
    }

    /// Takes the character `c` and stores its code, modulo 256.
    pub open spec fn read(self, c: char) -> MachineModel {
        MachineModel { consumed: self.consumed + 1, ..self.stored((c as u32 % 256) as u8) }
    }

    /// At a loop start whose loop ends at `end_ptr`: goes behind the end if
    /// the current cell is 0, and into the loop otherwise.
    pub open spec fn loop_start(self, end_ptr: int) -> MachineModel {
        MachineModel {
            instr_ptr: if self.current() == 0 {
                end_ptr + 1
            } else {
                self.instr_ptr + 1
            },
            ..self
        }
    }

    /// At a loop end whose loop starts at `start_ptr`: goes back to the start
    /// if the current cell is not 0, and on otherwise.
    pub open spec fn loop_end(self, start_ptr: int) -> MachineModel {
        MachineModel {
            instr_ptr: if self.current() != 0 {
                start_ptr
            } else {
                self.instr_ptr + 1
            },
            ..self
        }
    }

    /// Goes past a token that is no instruction.
    pub open spec fn skip(self) -> MachineModel {
        MachineModel { instr_ptr: self.instr_ptr + 1, ..self }
    }

    /// No instruction is left among `program_len` of them.
    pub open spec fn halted(self, program_len: int) -> bool {
        self.instr_ptr >= program_len
    }

    /// Executes the byte code `code`.
    pub open spec fn execute(self, code: ByteCodeView, inputs: Seq<char>) -> MachineModel {
        let arg = match code.arg {
            Some(arg) => arg as int,
            None => 0,
        };
        match code.kind {
            ByteCodeKind::IncPtr => self.inc_ptr(arg),
            ByteCodeKind::DecPtr => self.dec_ptr(arg),
            ByteCodeKind::IncData => self.inc_data(arg),
            ByteCodeKind::DecData => self.dec_data(arg),
            ByteCodeKind::Read => self.read(input_at(inputs, self.consumed)),
            ByteCodeKind::Write => self.write(arg),
            ByteCodeKind::LoopStartJumpIfDataZero => self.loop_start(arg),
            ByteCodeKind::LoopEndJumpIfDataNotZero => self.loop_end(arg),
        }
    }

    /// Executes the byte code at the instruction pointer, if there is one.
    #[verifier::opaque]
    pub open spec fn step_codes(self, codes: Seq<ByteCodeView>, inputs: Seq<char>) -> MachineModel {
        if 0 <= self.instr_ptr < codes.len() {
            self.execute(codes[self.instr_ptr], inputs)
        } else {
            self
        }
    }

    /// The machine after `steps` byte codes, or after the last one where the
    /// program ends before.
    pub open spec fn run_codes(
        self,
        codes: Seq<ByteCodeView>,
        inputs: Seq<char>,
        steps: nat,
    ) -> MachineModel
        decreases steps,
    {
        if steps == 0 {
            self
        } else {
            self.run_codes(codes, inputs, (steps - 1) as nat).step_codes(codes, inputs)
        }
    }

    /// Executes one token, each instruction once; a bracket finds its partner
    /// among `symbols`.
    pub open spec fn execute_symbol(self, symbols: Seq<Symbol>, inputs: Seq<char>) -> MachineModel {
        match symbols[self.instr_ptr] {
            Symbol::IncPtr => self.inc_ptr(1),
            Symbol::DecPtr => self.dec_ptr(1),
            Symbol::IncData => self.inc_data(1),
            Symbol::DecData => self.dec_data(1),
            Symbol::Read => self.read(input_at(inputs, self.consumed)),
            Symbol::Write => self.write(1),
            Symbol::LoopStart => self.loop_start(partner(symbol_roles(symbols), self.instr_ptr)),
            Symbol::LoopEnd => self.loop_end(partner(symbol_roles(symbols), self.instr_ptr)),
            Symbol::Newline => self.skip(),
            Symbol::Other => self.skip(),
        }
    }

    /// Executes the token at the instruction pointer, if there is one.
    #[verifier::opaque]
    pub open spec fn step_symbols(self, symbols: Seq<Symbol>, inputs: Seq<char>) -> MachineModel {
        if 0 <= self.instr_ptr < symbols.len() {
            self.execute_symbol(symbols, inputs)
        } else {
            self
        }
    }

    /// The machine after `steps` tokens, or after the last one where the
    /// source ends before.
    pub open spec fn run_symbols(
        self,
        symbols: Seq<Symbol>,
        inputs: Seq<char>,
        steps: nat,
    ) -> MachineModel
        decreases steps,
    {
        if steps == 0 {
            self
        } else {
            self.run_symbols(symbols, inputs, (steps - 1) as nat).step_symbols(symbols, inputs)
        }
    }
}

/// A step reads no character that was read before, and keeps the tape's length.
pub proof fn lemma_step_codes_keeps(m: MachineModel, codes: Seq<ByteCodeView>, inputs: Seq<char>)
    requires
        m.wf(),
        runnable(codes),
    ensures
        m.step_codes(codes, inputs).wf(),
        m.step_codes(codes, inputs).cells.len() == m.cells.len(),
        m.consumed <= m.step_codes(codes, inputs).consumed <= m.consumed + 1,
{
    reveal(MachineModel::step_codes);
    if 0 <= m.instr_ptr < codes.len() {
        let code = codes[m.instr_ptr];
        let len = m.cells.len() as int;
        assert(code.arg is Some);
        let arg = code.arg->0 as int;
        lemma_on_tape(m.data_ptr + arg, len);
        lemma_on_tape(m.data_ptr - arg, len);
    }
}

/// A run keeps the machine well formed and the tape's length.
pub proof fn lemma_run_codes_keeps(
    m: MachineModel,
    codes: Seq<ByteCodeView>,
    inputs: Seq<char>,
    steps: nat,
)
    requires
        m.wf(),
        runnable(codes),
    ensures
        m.run_codes(codes, inputs, steps).wf(),
        m.run_codes(codes, inputs, steps).cells.len() == m.cells.len(),
        m.consumed <= m.run_codes(codes, inputs, steps).consumed,
    decreases steps,
{
    if steps > 0 {
        lemma_run_codes_keeps(m, codes, inputs, (steps - 1) as nat);
        lemma_step_codes_keeps(m.run_codes(codes, inputs, (steps - 1) as nat), codes, inputs);
    }
}

/// A run depends on no more of the input stream than it reads.
pub proof fn lemma_run_codes_reads_prefix(
    m: MachineModel,
    codes: Seq<ByteCodeView>,
    inputs1: Seq<char>,
    inputs2: Seq<char>,
    steps: nat,
)
    requires
        m.wf(),
        runnable(codes),
        forall|i: int|
            0 <= i < m.run_codes(codes, inputs1, steps).consumed ==> input_at(inputs1, i)
                == input_at(inputs2, i),
    ensures
        m.run_codes(codes, inputs1, steps) == m.run_codes(codes, inputs2, steps),
    decreases steps,
{
    reveal(MachineModel::step_codes);
    if steps > 0 {
        let before = m.run_codes(codes, inputs1, (steps - 1) as nat);
        lemma_run_codes_keeps(m, codes, inputs1, (steps - 1) as nat);
        lemma_step_codes_keeps(before, codes, inputs1);
        lemma_run_codes_reads_prefix(m, codes, inputs1, inputs2, (steps - 1) as nat);
    }
}

/// Once no instruction is left, further steps change nothing.
pub proof fn lemma_run_codes_halted(
    m: MachineModel,
    codes: Seq<ByteCodeView>,
    inputs: Seq<char>,
    steps: nat,
    more: nat,
)
    requires
        m.run_codes(codes, inputs, steps).halted(codes.len() as int),
    ensures
        m.run_codes(codes, inputs, steps + more) == m.run_codes(codes, inputs, steps),
    decreases more,
{
    reveal(MachineModel::step_codes);
    if more > 0 {
        lemma_run_codes_halted(m, codes, inputs, steps, (more - 1) as nat);
    }
}

/// A step of a source whose brackets all have partners keeps the machine
/// well formed and the tape's length, and reads at most one character.
pub proof fn lemma_step_symbols_keeps(m: MachineModel, symbols: Seq<Symbol>, inputs: Seq<char>)
    requires
        m.wf(),
        balanced(symbol_roles(symbols)),
    ensures
        m.step_symbols(symbols, inputs).wf(),
        m.step_symbols(symbols, inputs).cells.len() == m.cells.len(),
        m.consumed <= m.step_symbols(symbols, inputs).consumed <= m.consumed + 1,
{
    reveal(MachineModel::step_symbols);
    if 0 <= m.instr_ptr < symbols.len() {
        let len = m.cells.len() as int;
        lemma_on_tape(m.data_ptr + 1, len);
        lemma_on_tape(m.data_ptr - 1, len);
        if symbols[m.instr_ptr].is_jump() {
            lemma_partner(symbol_roles(symbols), m.instr_ptr);
        }
    }
}

/// A run of a source whose brackets all have partners keeps the machine
/// well formed and the tape's length.
pub proof fn lemma_run_symbols_keeps(
    m: MachineModel,
    symbols: Seq<Symbol>,
    inputs: Seq<char>,
    steps: nat,
)
    requires
        m.wf(),
        balanced(symbol_roles(symbols)),
    ensures
        m.run_symbols(symbols, inputs, steps).wf(),
        m.run_symbols(symbols, inputs, steps).cells.len() == m.cells.len(),
        m.consumed <= m.run_symbols(symbols, inputs, steps).consumed,
    decreases steps,
{
    if steps > 0 {
        lemma_run_symbols_keeps(m, symbols, inputs, (steps - 1) as nat);
        lemma_step_symbols_keeps(m.run_symbols(symbols, inputs, (steps - 1) as nat), symbols, inputs);
    }
}

/// A run of a source depends on no more of the input stream than it reads.
pub proof fn lemma_run_symbols_reads_prefix(
    m: MachineModel,
    symbols: Seq<Symbol>,
    inputs1: Seq<char>,
    inputs2: Seq<char>,
    steps: nat,
)
    requires
        m.wf(),
        balanced(symbol_roles(symbols)),
        forall|i: int|
            0 <= i < m.run_symbols(symbols, inputs1, steps).consumed ==> input_at(inputs1, i)
                == input_at(inputs2, i),
    ensures
        m.run_symbols(symbols, inputs1, steps) == m.run_symbols(symbols, inputs2, steps),
    decreases steps,
{
    reveal(MachineModel::step_symbols);
    if steps > 0 {
        let before = m.run_symbols(symbols, inputs1, (steps - 1) as nat);
        lemma_run_symbols_keeps(m, symbols, inputs1, (steps - 1) as nat);
        lemma_step_symbols_keeps(before, symbols, inputs1);
        lemma_run_symbols_reads_prefix(m, symbols, inputs1, inputs2, (steps - 1) as nat);
    }
}

/// Once no token is left, further steps change nothing.
pub proof fn lemma_run_symbols_halted(
    m: MachineModel,
    symbols: Seq<Symbol>,
    inputs: Seq<char>,
    steps: nat,
    more: nat,
)
    requires
        m.run_symbols(symbols, inputs, steps).halted(symbols.len() as int),
    ensures
        m.run_symbols(symbols, inputs, steps + more) == m.run_symbols(symbols, inputs, steps),
    decreases more,
{
    reveal(MachineModel::step_symbols);
    if more > 0 {
        lemma_run_symbols_halted(m, symbols, inputs, steps, (more - 1) as nat);
    }
}

/// A reset forgets everything but the length of the tape.
pub proof fn lemma_reset_forgets(a: MachineModel, b: MachineModel)
    requires
        a.cells.len() == b.cells.len(),
    ensures
        a.reset() == b.reset(),
{
}

/// Whatever byte codes a machine has run before, after a reset the same byte
/// codes on the same input stream take it to the same state as a new
/// machine.
pub proof fn lemma_rerun_codes(
    m: MachineModel,
    earlier_codes: Seq<ByteCodeView>,
    earlier_inputs: Seq<char>,
    earlier_steps: nat,
    codes: Seq<ByteCodeView>,
    inputs: Seq<char>,
    steps: nat,
)
    requires
        m.cells.len() > 0,
        runnable(earlier_codes),
    ensures
        m.reset().run_codes(earlier_codes, earlier_inputs, earlier_steps).reset().run_codes(
            codes,
            inputs,
            steps,
        ) == m.reset().run_codes(codes, inputs, steps),
{
    lemma_run_codes_keeps(m.reset(), earlier_codes, earlier_inputs, earlier_steps);
}

/// Whatever tokens a machine has run before, after a reset the same tokens
/// on the same input stream take it to the same state as a new machine.
pub proof fn lemma_rerun_symbols(
    m: MachineModel,
    earlier_symbols: Seq<Symbol>,
    earlier_inputs: Seq<char>,
    earlier_steps: nat,
    symbols: Seq<Symbol>,
    inputs: Seq<char>,
    steps: nat,
)
    requires
        m.cells.len() > 0,
        balanced(symbol_roles(earlier_symbols)),
    ensures
        m.reset().run_symbols(earlier_symbols, earlier_inputs, earlier_steps).reset().run_symbols(
            symbols,
            inputs,
            steps,
        ) == m.reset().run_symbols(symbols, inputs, steps),
{
    lemma_run_symbols_keeps(m.reset(), earlier_symbols, earlier_inputs, earlier_steps);
}

} // verus!

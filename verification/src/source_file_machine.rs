//! A machine that executes the tokens of a source, and nothing else.

use crate::machine::Machine;
use crate::machine_io::MachineIO;
use crate::machine_model::{symbol_roles, MachineModel};
use crate::source_file::{UcSourceFile, UcSourceFileError};
use crate::utility::{balanced, first_unmatched_end, last_unmatched_start, ExtraParen};
use vstd::prelude::*;

verus! {

/// A machine whose cells wrap around and whose data pointer starts in the
/// middle of the tape, so that it can move left from there. Each of its
/// instructions is executed once.
#[derive(Debug)]
pub struct SourceFileMachine<IO> {
    machine: Machine<IO>,
}

impl<IO: MachineIO> View for SourceFileMachine<IO> {
    type V = MachineModel;

    closed spec fn view(&self) -> MachineModel {
        self.machine@
    }
}

impl<IO: MachineIO> SourceFileMachine<IO> {
    /// The port.
    pub closed spec fn port(&self) -> IO {
        self.machine.port()
    }

    /// The characters that the port has handed over since the last reset, in
    /// order.
    pub open spec fn inputs(&self) -> Seq<char> {
        self.port().taken()
    }

    /// What the machine holds is what its port has recorded.
    pub proof fn lemma_port(&self)
        ensures
            self@.emitted == self.port().written(),
            self@.consumed == self.port().taken().len(),
    {
        self.machine.lemma_port();
    }

    /// The data pointer is on the tape, and the count of characters read is
    /// the length of their record.
    pub open spec fn wf(&self) -> bool {
        &&& self@.wf()
        &&& self@.cells.len() <= usize::MAX
        &&& self@.instr_ptr <= usize::MAX
        &&& self@.consumed == self.inputs().len()
    }

    /// A machine with a tape of `cell_size` zeros, the data pointer in its
    /// middle and the instruction pointer at 0. The port is taken as it is.
    pub fn with_io(cell_size: usize, io: IO) -> (machine: Self)
        requires
            cell_size > 0,
        ensures
            machine.wf(),
            machine.port() == io,
            machine@ == (MachineModel {
                emitted: io.written(),
                consumed: io.taken().len() as int,
                ..MachineModel::fresh(cell_size as int)
            }),
    {
        Self { machine: Machine::with_io(cell_size, io) }
    }

    /// Makes the machine ready for another run.
    pub fn reset(&mut self)
        requires
            old(self).wf(),
        ensures
            final(self).wf(),
            final(self)@ == old(self)@.reset(),
            final(self).inputs() == Seq::<char>::empty(),
    {
        self.machine.reset();
    }

    /// `.` Writes the current cell as a character.
    pub fn write(&mut self)
        requires
            old(self).wf(),
            old(self)@.instr_ptr < usize::MAX,
        ensures
            final(self).wf(),
            final(self)@ == old(self)@.write(1),
            final(self).inputs() == old(self).inputs(),
    {
        self.machine.write(1);
    }

    /// `,` Takes one character from the port and stores its code in the
    /// current cell.
    pub fn read(&mut self)
        requires
            old(self).wf(),
            old(self)@.instr_ptr < usize::MAX,
        ensures
            final(self).wf(),
            final(self).inputs().len() == old(self).inputs().len() + 1,
            final(self).inputs().drop_last() == old(self).inputs(),
            final(self)@ == old(self)@.read(final(self).inputs().last()),
    {
        self.machine.read(1);
    }

    /// `>` Moves the data pointer one cell to the right, around the end of
    /// the tape.
    pub fn inc_ptr(&mut self)
        requires
            old(self).wf(),
            old(self)@.instr_ptr < usize::MAX,
        ensures
            final(self).wf(),
            final(self)@ == old(self)@.inc_ptr(1),
            final(self).inputs() == old(self).inputs(),
    {
        self.machine.inc_ptr(1);
    }

    /// `<` Moves the data pointer one cell to the left, around the start of
    /// the tape.
    pub fn dec_ptr(&mut self)
        requires
            old(self).wf(),
            old(self)@.instr_ptr < usize::MAX,
        ensures
            final(self).wf(),
            final(self)@ == old(self)@.dec_ptr(1),
            final(self).inputs() == old(self).inputs(),
    {
        self.machine.dec_ptr(1);
    }

    /// `+` Adds one to the current cell, modulo 256.
    pub fn inc_data(&mut self)
        requires
            old(self).wf(),
            old(self)@.instr_ptr < usize::MAX,
        ensures
            final(self).wf(),
            final(self)@ == old(self)@.inc_data(1),
            final(self).inputs() == old(self).inputs(),
    {
        self.machine.inc_data(1);
    }

    /// `-` Subtracts one from the current cell, modulo 256.
    pub fn dec_data(&mut self)
        requires
            old(self).wf(),
            old(self)@.instr_ptr < usize::MAX,
        ensures
            final(self).wf(),
            final(self)@ == old(self)@.dec_data(1),
            final(self).inputs() == old(self).inputs(),
    {
        self.machine.dec_data(1);
    }

    /// `[` Where the current cell is 0, goes to the token behind `end_ptr`,
    /// the matching `]`; otherwise into the loop.
    pub fn jump_if_data_not_zero(&mut self, end_ptr: usize)
        requires
            old(self).wf(),
            old(self)@.instr_ptr < usize::MAX,
            end_ptr < usize::MAX,
        ensures
            final(self).wf(),
            final(self)@ == old(self)@.loop_start(end_ptr as int),
            final(self).inputs() == old(self).inputs(),
    {
        self.machine.loop_start_jump_if_data_zero(end_ptr);
    }

    /// `]` Where the current cell is not 0, goes back to `start_ptr`, the
    /// matching `[`; otherwise on.
    pub fn jump_if_data_zero(&mut self, start_ptr: usize)
        requires
            old(self).wf(),
            old(self)@.instr_ptr < usize::MAX,
        ensures
            final(self).wf(),
            final(self)@ == old(self)@.loop_end(start_ptr as int),
            final(self).inputs() == old(self).inputs(),
    {
        self.machine.loop_end_jump_if_data_not_zero(start_ptr);
    }

    /// Resets the machine and executes the tokens of `src_file` until none
    /// is left or `max_steps` of them are done. Says whether none is left.
    /// Where a bracket has no partner, no token is executed.
    pub fn eval<'a>(&mut self, src_file: &'a UcSourceFile, max_steps: usize) -> (r: Result<
        bool,
        UcSourceFileError<'a>,
    >)
        requires
            old(self).wf(),
        ensures
            final(self).wf(),
            r is Ok <==> balanced(symbol_roles(src_file@.symbols())),
            match r {
                Ok(finished) => {
                    &&& final(self)@ == old(self)@.reset().run_symbols(
                        src_file@.symbols(),
                        final(self).inputs(),
                        max_steps as nat,
                    )
                    &&& finished == final(self)@.halted(src_file@.tokens.len() as int)
                },
                Err(UcSourceFileError::UnmatchedParen { src_file: source, details }) => {
                    &&& source@ == src_file@
                    &&& final(self)@ == old(self)@.reset()
                    &&& final(self).inputs() == Seq::<char>::empty()
                    &&& match details {
                        ExtraParen::Right(e) => first_unmatched_end(
                            symbol_roles(src_file@.symbols()),
                            e as int,
                        ),
                        ExtraParen::Left(s) => last_unmatched_start(
                            symbol_roles(src_file@.symbols()),
                            s as int,
                        ),
                    }
                },
                Err(UcSourceFileError::FileFailToRead { .. }) => false,
            },
    {
        self.machine.eval_source_file(src_file, max_steps)
    }

    /// The tape.
    pub fn cells(&self) -> (cells: &[u8])
        ensures
            cells@ == self@.cells,
    {
        self.machine.cells()
    }

    /// The index of the current cell.
    pub fn data_ptr(&self) -> (data_ptr: usize)
        ensures
            data_ptr == self@.data_ptr,
    {
        self.machine.data_ptr()
    }

    /// The index of the next token.
    pub fn instr_ptr(&self) -> (instr_ptr: usize)
        ensures
            instr_ptr == self@.instr_ptr,
    {
        self.machine.instr_ptr()
    }
}

} // verus!

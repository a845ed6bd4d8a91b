//! The port through which a machine writes and reads characters.

use vstd::prelude::*;

verus! {

/// What a machine needs from the outside: a place to write characters to, a
/// place to read them from, and a way to start both anew.
///
/// A port has a record of what has gone through it since it was last
/// flushed. The contracts say how each call adds to the record, and no more:
/// which character `in_char` hands over, and when, is up to the port. The
/// record exists in proofs only. An implementation in plain Rust gives the
/// three methods and leaves the record to its default; nothing checks it
/// against the contracts, which are what a machine takes for granted.
/// `DebugMachineIO` is a port that is checked against them.
pub trait MachineIO {
    /// The characters written since the last flush, in order.
    open spec fn written(&self) -> Seq<char> {
        arbitrary()
    }

    /// The characters read since the last flush, in order.
    open spec fn taken(&self) -> Seq<char> {
        arbitrary()
    }

    /// Writes the character `c`, `n` times.
    fn out_char_n_times(&mut self, c: char, n: usize)
        ensures
            final(self).written() == old(self).written() + Seq::new(n as nat, |i: int| c),
            final(self).taken() == old(self).taken(),
    ;

    /// Waits for one character and hands it over.
    fn in_char(&mut self) -> (c: char)
        ensures
            final(self).taken() == old(self).taken().push(c),
            final(self).written() == old(self).written(),
    ;

    /// Starts the record anew.
    fn flush_all(&mut self)
        ensures
            final(self).written() == Seq::<char>::empty(),
            final(self).taken() == Seq::<char>::empty(),
    ;
}

/// A port in memory: it keeps what is written to it and reads from a text
/// that it is given. Once the text is used up it hands over the character of
/// code 0.
#[derive(Debug)]
pub struct DebugMachineIO {
    out_buf: Vec<char>,
    in_buf: Vec<char>,
    in_pos: usize,
    taken: Vec<char>,
}

impl DebugMachineIO {
    /// The characters of the given text that were not read yet.
    pub closed spec fn unread(&self) -> Seq<char> {
        if self.in_pos <= self.in_buf.len() {
            self.in_buf@.skip(self.in_pos as int)
        } else {
            Seq::empty()
        }
    }

    /// A port with nothing written and nothing read, to read from `input`.
    pub fn new(input: Vec<char>) -> (io: Self)
        ensures
            io.written() == Seq::<char>::empty(),
            io.taken() == Seq::<char>::empty(),
            io.unread() == input@,
    {
        let io = Self { out_buf: Vec::new(), in_buf: input, in_pos: 0, taken: Vec::new() };
        assert(io.unread() =~= input@);
        io
    }

    /// The characters written since the last flush.
    pub fn out_buf(&self) -> (out_buf: &[char])
        ensures
            out_buf@ == self.written(),
    {
        self.out_buf.as_slice()
    }

    /// The number of characters of the given text that were not read yet.
    pub fn unread_len(&self) -> (n: usize)
        ensures
            n == self.unread().len(),
    {
        if self.in_pos <= self.in_buf.len() {
            self.in_buf.len() - self.in_pos
        } else {
            0
        }
    }
}

impl MachineIO for DebugMachineIO {
    closed spec fn written(&self) -> Seq<char> {
        self.out_buf@
    }

    closed spec fn taken(&self) -> Seq<char> {
        self.taken@
    }

    fn out_char_n_times(&mut self, c: char, n: usize)
        ensures
            final(self).unread() == old(self).unread(),
    {
        let mut i: usize = 0;
        while i < n
            invariant
                i <= n,
                self.out_buf@ == old(self).out_buf@ + Seq::new(i as nat, |j: int| c),
                self.in_buf == old(self).in_buf,
                self.in_pos == old(self).in_pos,
                self.taken == old(self).taken,
            decreases n - i,
        {
            self.out_buf.push(c);
            i += 1;
        }
    }

    fn in_char(&mut self) -> (c: char)
        ensures
            old(self).unread().len() > 0 ==> c == old(self).unread()[0] && final(self).unread()
                == old(self).unread().skip(1),
            old(self).unread().len() == 0 ==> c == '\0' && final(self).unread() == old(
                self,
            ).unread(),
    {
        let c = if self.in_pos < self.in_buf.len() {
            let c = self.in_buf[self.in_pos];
            self.in_pos += 1;
            assert(self.unread() =~= old(self).unread().skip(1));
            c
        } else {
            '\0'
        };
        self.taken.push(c);
        c
    }

    fn flush_all(&mut self)
        ensures
            final(self).unread() == old(self).unread(),
    {
        self.out_buf.clear();
        self.taken.clear();
    }
}

} // verus!

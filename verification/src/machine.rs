//! The mathematical model of the machine.
//!
//! `Machine` is the view of an interpreter: the tape storage and its pointer,
//! the materialized instructions and the instruction pointer, and the two
//! character sources with the number of units already taken from each. The
//! functions below say, on that model, what every operation does; the
//! executable operations are proved against them.
use vstd::prelude::*;
use crate::stream::{halt_at, noise_end, symbols, Pulled, StreamError};

verus! {

/// What one dispatched instruction leaves for the driver to do.
#[derive(Clone, Copy, Debug, PartialEq, Eq, Structural)]
pub enum Outcome {
    /// Nothing to write and nothing to report.
    Silent,
    /// The character to write to the output sink.
    Output(char),
    /// An output was asked of a cell whose value is no unicode scalar value;
    /// nothing is written.
    InvalidCodepoint(u32),
    /// A `]` on a nonzero cell found no `[` before it; execution goes on.
    UnmatchedCloseBracket,
}

/// The number of cells that a new tape stores.
pub const INITIAL_CELLS: usize = 65536;

/// The address after `p`, wrapping at the end of the address space.
pub open spec fn moved_right(p: usize) -> usize {
    if p == usize::MAX {
        0
    } else {
        (p + 1) as usize
    }
}

/// The address before `p`, wrapping at the start of the address space.
pub open spec fn moved_left(p: usize) -> usize {
    if p == 0 {
        usize::MAX
    } else {
        (p - 1) as usize
    }
}

/// The address reached from `p` by `n` moves to the right.
pub open spec fn moved_right_by(p: usize, n: nat) -> usize
    decreases n,
{
    if n == 0 {
        p
    } else {
        moved_right(moved_right_by(p, (n - 1) as nat))
    }
}

/// A cell value plus one, wrapping at 32 bits.
pub open spec fn bumped(v: u32) -> u32 {
    if v == u32::MAX {
        0
    } else {
        (v + 1) as u32
    }
}

/// A cell value minus one, wrapping at 32 bits.
pub open spec fn dropped(v: u32) -> u32 {
    if v == 0 {
        u32::MAX
    } else {
        (v - 1) as u32
    }
}

/// Whether a cell value is a unicode scalar value.
pub open spec fn scalar(v: u32) -> bool {
    v <= 0xD7FF || (0xE000 <= v && v <= 0x10FFFF)
}

/// What an output instruction yields for a cell value.
pub open spec fn emitted(v: u32) -> Outcome {
    if scalar(v) {
        Outcome::Output(v as char)
    } else {
        Outcome::InvalidCodepoint(v)
    }
}

/// The storage length after one doubling; an empty storage counts as one cell.
pub open spec fn doubled(len: nat) -> nat {
    if len == 0 {
        2
    } else {
        2 * len
    }
}

/// How many cells a storage of length `len` lacks to make `addr` addressable.
pub open spec fn shortfall(len: nat, addr: nat) -> nat {
    if addr < len {
        0
    } else {
        (addr + 1 - len) as nat
    }
}

/// The storage length after doubling `len` until `addr` is addressable.
pub open spec fn grown_len(len: nat, addr: nat) -> nat
    decreases shortfall(len, addr),
{
    if addr < len {
        len
    } else {
        grown_len(doubled(len), addr)
    }
}

/// `cells` extended with zero cells to the length `len`.
pub open spec fn widened(cells: Seq<u32>, len: nat) -> Seq<u32> {
    Seq::new(
        len,
        |i: int|
            if i < cells.len() {
                cells[i]
            } else {
                0u32
            },
    )
}

/// The first position at or after `from` that holds `]`, or the length of
/// `instructions` when there is none.
pub open spec fn first_close(instructions: Seq<char>, from: nat) -> nat
    decreases instructions.len() - from,
{
    if from >= instructions.len() {
        instructions.len()
    } else if instructions[from as int] == ']' {
        from
    } else {
        first_close(instructions, from + 1)
    }
}

/// The last position before `before` that holds `[`, if there is one.
pub open spec fn last_open(instructions: Seq<char>, before: nat) -> Option<nat>
    decreases before,
{
    if before == 0 {
        None
    } else if instructions[before - 1] == '[' {
        Some((before - 1) as nat)
    } else {
        last_open(instructions, (before - 1) as nat)
    }
}

/// The state of an interpreter as plain mathematical values.
pub struct Machine {
    /// The cells that the tape stores; every address beyond them reads zero.
    pub cells: Seq<u32>,
    /// The tape pointer.
    pub pointer: usize,
    /// The instructions materialized so far.
    pub instructions: Seq<char>,
    /// The position of the next instruction to dispatch.
    pub instruction_pointer: nat,
    /// The program source, whole.
    pub source: Seq<Pulled>,
    /// How many units of the program source have been pulled.
    pub pulled: nat,
    /// The input source, whole.
    pub input: Seq<Pulled>,
    /// How many units of the input source have been taken.
    pub taken: nat,
}

impl Machine {
    /// The machine at the start of `source`, with `input` as its input: a
    /// tape of zero cells, the pointer at address 0, nothing materialized.
    pub open spec fn fresh(source: Seq<Pulled>, input: Seq<Pulled>) -> Machine {
        Machine {
            cells: widened(Seq::empty(), INITIAL_CELLS as nat),
            pointer: 0,
            instructions: Seq::empty(),
            instruction_pointer: 0,
            source,
            pulled: 0,
            input,
            taken: 0,
        }
    }

    /// The invariant of every interpreter. Its third line is the filtering
    /// law: what is materialized is exactly the instruction symbols of what
    /// was pulled, in the order in which they came.
    pub open spec fn wf(self) -> bool {
        &&& self.pulled <= self.source.len()
        &&& self.taken <= self.input.len()
        &&& self.instructions == symbols(self.source.subrange(0, self.pulled as int))
        &&& self.instruction_pointer <= self.instructions.len()
    }

    /// The value of the cell at `addr`: zero wherever nothing is stored.
    pub open spec fn cell(self, addr: int) -> u32 {
        if 0 <= addr < self.cells.len() {
            self.cells[addr]
        } else {
            0
        }
    }

    /// The value of the cell under the pointer.
    pub open spec fn current(self) -> u32 {
        self.cell(self.pointer as int)
    }

    /// Whether the storage can be doubled until the pointer is addressable
    /// without its length leaving the machine word.
    pub open spec fn can_store(self) -> bool {
        grown_len(self.cells.len(), self.pointer as nat) <= usize::MAX
    }

    /// The machine after the storage was doubled until the pointer is
    /// addressable.
    pub open spec fn reached(self) -> Machine {
        Machine {
            cells: widened(self.cells, grown_len(self.cells.len(), self.pointer as nat)),
            ..self
        }
    }

    /// The machine after a write of `v` under the pointer.
    pub open spec fn stored(self, v: u32) -> Machine {
        Machine { cells: self.reached().cells.update(self.pointer as int, v), ..self }
    }

    /// The machine with its instruction pointer moved one further.
    pub open spec fn advanced(self) -> Machine {
        Machine { instruction_pointer: self.instruction_pointer + 1, ..self }
    }

    /// One pull from the program source: discarded units are passed over, an
    /// encoding fault or the end of the source is an error, and the first
    /// instruction symbol is appended.
    pub open spec fn pull(self) -> (Machine, Result<(), StreamError>) {
        let at = noise_end(self.source, self.pulled);
        if at >= self.source.len() {
            (Machine { pulled: self.source.len(), ..self }, Err(StreamError::ExhaustedError))
        } else {
            match self.source[at as int] {
                Pulled::Invalid => (
                    Machine { pulled: at + 1, ..self },
                    Err(StreamError::DecodeError),
                ),
                Pulled::Char(c) => (
                    Machine { pulled: at + 1, instructions: self.instructions.push(c), ..self },
                    Ok(()),
                ),
            }
        }
    }

    /// One read from the input source into the cell under the pointer. At the
    /// end of the input nothing changes; an encoding fault is consumed and
    /// leaves the tape as it was.
    pub open spec fn read(self) -> (Machine, Result<(), StreamError>) {
        if self.taken >= self.input.len() {
            (self, Err(StreamError::ExhaustedError))
        } else {
            match self.input[self.taken as int] {
                Pulled::Invalid => (
                    Machine { taken: self.taken + 1, ..self },
                    Err(StreamError::DecodeError),
                ),
                Pulled::Char(c) => (
                    Machine { taken: self.taken + 1, ..self }.stored(c as u32),
                    Ok(()),
                ),
            }
        }
    }

    /// The forward search of a `[` on a zero cell. The nearest `]` after the
    /// instruction pointer is the target, whatever brackets lie between. When
    /// none is materialized, the program source is pulled up to the first `]`,
    /// the first encoding fault or its end. At the end of the source the
    /// instruction pointer is left on the last instruction, so that the step
    /// that follows finds the source exhausted.
    pub open spec fn jump_forward(self) -> (Machine, Result<(), StreamError>) {
        let close = first_close(self.instructions, self.instruction_pointer + 1);
        let stop = halt_at(self.source, self.pulled);
        if close < self.instructions.len() {
            (Machine { instruction_pointer: close, ..self }, Ok(()))
        } else if stop >= self.source.len() {
            let all = self.instructions + symbols(
                self.source.subrange(self.pulled as int, self.source.len() as int),
            );
            (
                Machine {
                    pulled: self.source.len(),
                    instructions: all,
                    instruction_pointer: (all.len() - 1) as nat,
                    ..self
                },
                Ok(()),
            )
        } else if self.source[stop as int] is Invalid {
            let before = self.instructions + symbols(
                self.source.subrange(self.pulled as int, stop as int),
            );
            (
                Machine { pulled: stop + 1, instructions: before, ..self },
                Err(StreamError::DecodeError),
            )
        } else {
            let through = self.instructions + symbols(
                self.source.subrange(self.pulled as int, (stop + 1) as int),
            );
            (
                Machine {
                    pulled: stop + 1,
                    instructions: through,
                    instruction_pointer: (through.len() - 1) as nat,
                    ..self
                },
                Ok(()),
            )
        }
    }

    /// The `[` instruction: no jump on a nonzero cell, the forward search on a
    /// zero cell.
    pub open spec fn jump_if_zero(self) -> (Machine, Result<(), StreamError>) {
        if self.current() != 0 {
            (self, Ok(()))
        } else {
            self.jump_forward()
        }
    }

    /// The `]` instruction: no jump on a zero cell; on a nonzero cell the
    /// nearest `[` before the instruction pointer is the target, whatever
    /// brackets lie between, and its absence is reported.
    pub open spec fn jump_if_nonzero(self) -> (Machine, Outcome) {
        if self.current() == 0 {
            (self, Outcome::Silent)
        } else {
            match last_open(self.instructions, self.instruction_pointer) {
                Some(open) => (Machine { instruction_pointer: open, ..self }, Outcome::Silent),
                None => (self, Outcome::UnmatchedCloseBracket),
            }
        }
    }

    /// The first part of a step: an instruction is pulled when the
    /// instruction pointer stands at the end of what is materialized.
    pub open spec fn fetch(self) -> (Machine, Result<(), StreamError>) {
        if self.instruction_pointer < self.instructions.len() {
            (self, Ok(()))
        } else {
            self.pull()
        }
    }

    /// The second part of a step: the instruction under the instruction
    /// pointer is carried out, and the instruction pointer moves one further
    /// unless an error ends the step.
    pub open spec fn dispatch(self) -> (Machine, Result<Outcome, StreamError>) {
        let c = self.instructions[self.instruction_pointer as int];
        if c == '>' {
            (Machine { pointer: moved_right(self.pointer), ..self }.advanced(), Ok(Outcome::Silent))
        } else if c == '<' {
            (Machine { pointer: moved_left(self.pointer), ..self }.advanced(), Ok(Outcome::Silent))
        } else if c == '+' {
            (self.stored(bumped(self.current())).advanced(), Ok(Outcome::Silent))
        } else if c == '-' {
            (self.stored(dropped(self.current())).advanced(), Ok(Outcome::Silent))
        } else if c == '.' {
            (self.advanced(), Ok(emitted(self.current())))
        } else if c == ',' {
            match self.read().1 {
                Ok(_) => (self.read().0.advanced(), Ok(Outcome::Silent)),
                Err(e) => (self.read().0, Err(e)),
            }
        } else if c == '[' {
            match self.jump_if_zero().1 {
                Ok(_) => (self.jump_if_zero().0.advanced(), Ok(Outcome::Silent)),
                Err(e) => (self.jump_if_zero().0, Err(e)),
            }
        } else if c == ']' {
            (self.jump_if_nonzero().0.advanced(), Ok(self.jump_if_nonzero().1))
        } else {
            (self.advanced(), Ok(Outcome::Silent))
        }
    }

    /// Whether `read` writes to the tape: the input has a character left.
    pub open spec fn read_stores(self) -> bool {
        self.taken < self.input.len() && self.input[self.taken as int] is Char
    }

    /// Whether `dispatch` writes to the tape.
    pub open spec fn dispatch_stores(self) -> bool {
        let c = self.instructions[self.instruction_pointer as int];
        c == '+' || c == '-' || (c == ',' && self.read_stores())
    }

    /// One step: fetch, then dispatch. A pull error ends the step before
    /// anything is dispatched.
    pub open spec fn step(self) -> (Machine, Result<Outcome, StreamError>) {
        match self.fetch().1 {
            Ok(_) => self.fetch().0.dispatch(),
            Err(e) => (self.fetch().0, Err(e)),
        }
    }

    /// The instruction that the step dispatches, when its fetch succeeds.
    pub open spec fn upcoming(self) -> Option<char> {
        let fetched = self.fetch().0;
        if self.fetch().1 is Ok {
            Some(fetched.instructions[fetched.instruction_pointer as int])
        } else {
            None
        }
    }

    /// Whether the step writes to the tape.
    pub open spec fn step_stores(self) -> bool {
        self.fetch().1 is Ok && self.fetch().0.dispatch_stores()
    }

    /// Whether the step stays within the machine's limits: a step that writes
    /// must be able to store.
    pub open spec fn step_in_reach(self) -> bool {
        self.step_stores() ==> self.can_store()
    }

    /// The machine after `n` steps.
    pub open spec fn after(self, n: nat) -> Machine
        decreases n,
    {
        if n == 0 {
            self
        } else {
            self.after((n - 1) as nat).step().0
        }
    }
}

} // verus!

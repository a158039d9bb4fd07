//! The interpreter: the tape, the instruction stream and the step.
//!
//! Every operation is proved against the function of the same name on
//! `Machine`, the interpreter's view.
use vstd::prelude::*;
use crate::laws::{
    lemma_grown_len, lemma_jump_forward_wf, lemma_pull_wf, lemma_pull_within_search,
};
use crate::machine::{
    doubled, emitted, first_close, grown_len, last_open, moved_left, moved_right, scalar,
    shortfall, widened, Machine, Outcome, INITIAL_CELLS,
};
use crate::stream::{discarded, halt_at, is_usable, noise_end, symbols, Pulled, StreamError};

verus! {

/// `char::from_u32` of std: a value in one of the two ranges of unicode scalar
/// values comes back as the character with that code point, every other
/// value as `None`.
pub assume_specification[ char::from_u32 ](i: u32) -> (c: Option<char>)
    ensures
        c == if scalar(i) {
            Some(i as char)
        } else {
            None::<char>
        },
;

/// An interpreter over a program source and an input source, both held as
/// the units that their decoding gives.
pub struct InterpreterState {
    data: Vec<u32>,
    pointer: usize,
    reader: Vec<Pulled>,
    pulled: usize,
    input_reader: Vec<Pulled>,
    taken: usize,
    instructions: Vec<char>,
    instruction_pointer: usize,
}

impl View for InterpreterState {
    type V = Machine;

    closed spec fn view(&self) -> Machine {
        Machine {
            cells: self.data@,
            pointer: self.pointer,
            instructions: self.instructions@,
            instruction_pointer: self.instruction_pointer as nat,
            source: self.reader@,
            pulled: self.pulled as nat,
            input: self.input_reader@,
            taken: self.taken as nat,
        }
    }
}

impl InterpreterState {
    /// An interpreter at the start of `reader`, with `input_reader` as its
    /// input: every cell of the tape is zero, the pointer is at address 0,
    /// and nothing is materialized yet.
    pub fn new(reader: Vec<Pulled>, input_reader: Vec<Pulled>) -> (state: InterpreterState)
        ensures
            state@ == Machine::fresh(reader@, input_reader@),
            state@.wf(),
            forall|addr: int| state@.cell(addr) == 0,
    {
        let state = InterpreterState {
            data: vec![0u32; INITIAL_CELLS],
            pointer: 0,
            reader,
            pulled: 0,
            input_reader,
            taken: 0,
            instructions: Vec::new(),
            instruction_pointer: 0,
        };
        proof {
            assert(state.data@ =~= Machine::fresh(reader@, input_reader@).cells);
            assert(state.reader@.subrange(0, 0) =~= Seq::<Pulled>::empty());
        }
        state
    }

    /// Moves the tape pointer one address to the right, wrapping at the end
    /// of the address space.
    pub fn increment(&mut self)
        ensures
            final(self)@ == (Machine { pointer: moved_right(old(self)@.pointer), ..old(self)@ }),
    {
        self.pointer = self.pointer.wrapping_add(1);
    }

    /// Moves the tape pointer one address to the left, wrapping at the start
    /// of the address space.
    pub fn decrement(&mut self)
        ensures
            final(self)@ == (Machine { pointer: moved_left(old(self)@.pointer), ..old(self)@ }),
    {
        self.pointer = self.pointer.wrapping_sub(1);
    }

    /// The value of the cell under the pointer: zero beyond the storage, which
    /// a read never grows.
    pub fn dereference(&self) -> (value: u32)
        ensures
            value == self@.current(),
    {
        if self.pointer >= self.data.len() {
            return 0;
        }
        self.data[self.pointer]
    }

    /// Doubles the storage, an empty one to two cells; the new cells are zero.
    pub fn grow(&mut self)
        requires
            doubled(old(self)@.cells.len()) <= usize::MAX,
        ensures
            final(self)@ == (Machine {
                cells: widened(old(self)@.cells, doubled(old(self)@.cells.len())),
                ..old(self)@
            }),
    {
        let length: usize = if self.data.len() == 0 {
            1
        } else {
            self.data.len()
        };
        self.data.resize(length * 2, 0);
        proof {
            assert(self.data@ =~= widened(old(self).data@, doubled(old(self).data@.len())));
        }
    }

    /// The cell under the pointer, for writing. The storage is first doubled
    /// until the pointer is addressable; whatever the caller then writes is
    /// the cell's new value.
    pub fn dereference_mut(&mut self) -> (cell: &mut u32)
        requires
            old(self)@.can_store(),
        ensures
            *cell == old(self)@.current(),
            final(self)@ == old(self)@.stored(*final(cell)),
    {
        while self.pointer >= self.data.len()
            invariant
                self.pointer == old(self).pointer,
                self.reader@ == old(self).reader@,
                self.pulled == old(self).pulled,
                self.input_reader@ == old(self).input_reader@,
                self.taken == old(self).taken,
                self.instructions@ == old(self).instructions@,
                self.instruction_pointer == old(self).instruction_pointer,
                self.data@ == widened(old(self).data@, self.data@.len()),
                old(self).data@.len() <= self.data@.len(),
                grown_len(self.data@.len(), self.pointer as nat) == grown_len(
                    old(self).data@.len(),
                    old(self).pointer as nat,
                ),
                grown_len(self.data@.len(), self.pointer as nat) <= usize::MAX,
            decreases shortfall(self.data@.len(), self.pointer as nat),
        {
            proof {
                lemma_grown_len(doubled(self.data@.len()), self.pointer as nat);
            }
            self.grow();
            proof {
                assert(self.data@ =~= widened(old(self).data@, self.data@.len()));
            }
        }
        &mut self.data[self.pointer]
    }

    /// What the output instruction yields: the character whose code point is
    /// the value of the cell under the pointer, or the report that the value
    /// is no unicode scalar value. The tape is left as it is.
    pub fn write(&self) -> (outcome: Outcome)
        ensures
            outcome == emitted(self@.current()),
    {
        let value = self.dereference();
        match char::from_u32(value) {
            Some(c) => Outcome::Output(c),
            None => Outcome::InvalidCodepoint(value),
        }
    }

    /// Takes one unit from the input source. A character's code point is
    /// written to the cell under the pointer; an encoding fault is consumed
    /// and reported; at the end of the input nothing changes.
    pub fn read(&mut self) -> (result: Result<(), StreamError>)
        requires
            old(self)@.wf(),
            old(self)@.read_stores() ==> old(self)@.can_store(),
        ensures
            (final(self)@, result) == old(self)@.read(),
            final(self)@.wf(),
    {
        if self.taken >= self.input_reader.len() {
            return Err(StreamError::ExhaustedError);
        }
        let item = self.input_reader[self.taken];
        self.taken = self.taken + 1;
        match item {
            Pulled::Char(c) => {
                *self.dereference_mut() = c as u32;
                Ok(())
            },
            Pulled::Invalid => Err(StreamError::DecodeError),
        }
    }

    /// The position in the program source at which the next pull stops.
    fn noise_stop(&self) -> (at: usize)
        requires
            self@.wf(),
        ensures
            at == noise_end(self@.source, self@.pulled),
            self@.pulled <= at <= self@.source.len(),
    {
        let mut at = self.pulled;
        while at < self.reader.len() && Self::is_noise(self.reader[at])
            invariant
                self.pulled <= at <= self.reader.len(),
                noise_end(self.reader@, self.pulled as nat) == noise_end(self.reader@, at as nat),
            decreases self.reader.len() - at,
        {
            at = at + 1;
        }
        at
    }

    /// Whether a pull passes over `item`.
    fn is_noise(item: Pulled) -> (b: bool)
        ensures
            b == discarded(item),
    {
        match item {
            Pulled::Char(c) => !is_usable(c),
            Pulled::Invalid => false,
        }
    }

    /// Pulls the next instruction from the program source. Characters outside
    /// the alphabet are passed over in a loop; the first instruction symbol is
    /// appended to the materialized instructions. An encoding fault is
    /// consumed and reported; so is the end of the source.
    pub fn read_file(&mut self) -> (result: Result<(), StreamError>)
        requires
            old(self)@.wf(),
        ensures
            (final(self)@, result) == old(self)@.pull(),
            final(self)@.wf(),
    {
        proof {
            lemma_pull_wf(self@);
        }
        let at = self.noise_stop();
        if at >= self.reader.len() {
            self.pulled = at;
            return Err(StreamError::ExhaustedError);
        }
        self.pulled = at + 1;
        match self.reader[at] {
            Pulled::Char(c) => {
                self.instructions.push(c);
                Ok(())
            },
            Pulled::Invalid => Err(StreamError::DecodeError),
        }
    }

    /// The `[` instruction. On a nonzero cell nothing changes. On a zero cell
    /// the instruction pointer moves to the nearest `]` after it, whatever
    /// brackets lie between; when none is materialized, instructions are
    /// pulled until one is. If the source ends first, the instruction pointer
    /// is left on the last instruction; an encoding fault ends the search
    /// with the instruction pointer where it was.
    pub fn jump_if_zero(&mut self) -> (result: Result<(), StreamError>)
        requires
            old(self)@.wf(),
            old(self)@.instruction_pointer < old(self)@.instructions.len(),
        ensures
            (final(self)@, result) == old(self)@.jump_if_zero(),
            final(self)@.wf(),
    {
        if self.dereference() != 0 {
            return Ok(());
        }
        proof {
            lemma_jump_forward_wf(self@);
        }
        assert(self.instruction_pointer < self.instructions.len());
        let mut close = self.instruction_pointer + 1;
        while close < self.instructions.len() && self.instructions[close] != ']'
            invariant
                self.instruction_pointer < close <= self.instructions.len(),
                first_close(self.instructions@, (self.instruction_pointer + 1) as nat)
                    == first_close(self.instructions@, close as nat),
            decreases self.instructions.len() - close,
        {
            close = close + 1;
        }
        if close < self.instructions.len() {
            self.instruction_pointer = close;
            return Ok(());
        }
        let ghost start = self@;
        loop
            invariant
                start == old(self)@,
                start.wf(),
                start.current() == 0,
                start.instruction_pointer < start.instructions.len(),
                first_close(start.instructions, start.instruction_pointer + 1)
                    >= start.instructions.len(),
                self@.wf(),
                start.pulled <= self@.pulled,
                halt_at(start.source, start.pulled) == halt_at(start.source, self@.pulled),
                self@ == (Machine {
                    pulled: self@.pulled,
                    instructions: start.instructions + symbols(
                        start.source.subrange(start.pulled as int, self@.pulled as int),
                    ),
                    ..start
                }),
            decreases self.reader.len() - self.pulled,
        {
            let ghost before = self@;
            proof {
                lemma_pull_wf(before);
                lemma_pull_within_search(before, start.pulled);
            }
            match self.read_file() {
                Ok(_) => {
                    let last = self.instructions.len() - 1;
                    proof {
                        let seen = symbols(
                            start.source.subrange(start.pulled as int, before.pulled as int),
                        );
                        let c = self.instructions@.last();
                        assert((start.instructions + seen).push(c) =~= start.instructions
                            + seen.push(c));
                    }
                    if self.instructions[last] == ']' {
                        self.instruction_pointer = last;
                        return Ok(());
                    }
                },
                Err(StreamError::ExhaustedError) => {
                    self.instruction_pointer = self.instructions.len() - 1;
                    return Ok(());
                },
                Err(StreamError::DecodeError) => {
                    return Err(StreamError::DecodeError);
                },
            }
        }
    }

    /// The `]` instruction. On a zero cell nothing changes. On a nonzero cell
    /// the instruction pointer moves to the nearest `[` before it, whatever
    /// brackets lie between; when there is none, nothing changes and the
    /// missing bracket is reported.
    pub fn jump_if_nonzero(&mut self) -> (outcome: Outcome)
        requires
            old(self)@.wf(),
        ensures
            (final(self)@, outcome) == old(self)@.jump_if_nonzero(),
            final(self)@.wf(),
            final(self)@.instruction_pointer <= old(self)@.instruction_pointer,
    {
        if self.dereference() == 0 {
            return Outcome::Silent;
        }
        let mut before = self.instruction_pointer;
        while before > 0 && self.instructions[before - 1] != '['
            invariant
                before <= self.instruction_pointer <= self.instructions.len(),
                last_open(self.instructions@, self.instruction_pointer as nat) == last_open(
                    self.instructions@,
                    before as nat,
                ),
            decreases before,
        {
            before = before - 1;
        }
        if before > 0 {
            self.instruction_pointer = before - 1;
            Outcome::Silent
        } else {
            Outcome::UnmatchedCloseBracket
        }
    }

    /// One step: an instruction is pulled if none is materialized under the
    /// instruction pointer, the instruction there is carried out, and the
    /// instruction pointer moves one further. An error of the program source
    /// or of the input source ends the step where it occurs. Since the
    /// instruction pointer never stands beyond the end of what is
    /// materialized, one successful pull always suffices.
    pub fn repl(&mut self) -> (result: Result<Outcome, StreamError>)
        requires
            old(self)@.wf(),
            old(self)@.step_in_reach(),
        ensures
            (final(self)@, result) == old(self)@.step(),
            final(self)@.wf(),
    {
        if self.instruction_pointer >= self.instructions.len() {
            match self.read_file() {
                Ok(_) => {},
                Err(e) => {
                    return Err(e);
                },
            }
        }
        assert(self@ == old(self)@.fetch().0);
        assert(self.instruction_pointer < self.instructions.len());
        let instruction = self.instructions[self.instruction_pointer];
        let mut outcome = Outcome::Silent;
        if instruction == '>' {
            self.increment();
        } else if instruction == '<' {
            self.decrement();
        } else if instruction == '+' {
            let value = self.dereference();
            *self.dereference_mut() = value.wrapping_add(1);
        } else if instruction == '-' {
            let value = self.dereference();
            *self.dereference_mut() = value.wrapping_sub(1);
        } else if instruction == '.' {
            outcome = self.write();
        } else if instruction == ',' {
            match self.read() {
                Ok(_) => {},
                Err(e) => {
                    return Err(e);
                },
            }
        } else if instruction == '[' {
            proof {
                if self@.current() == 0 {
                    lemma_jump_forward_wf(self@);
                }
            }
            match self.jump_if_zero() {
                Ok(_) => {},
                Err(e) => {
                    return Err(e);
                },
            }
        } else if instruction == ']' {
            outcome = self.jump_if_nonzero();
        }
        assert(self.instruction_pointer < self.instructions.len());
        self.instruction_pointer = self.instruction_pointer + 1;
        Ok(outcome)
    }

    /// Whether a write under the pointer stays within the machine's limits.
    pub fn can_store(&self) -> (b: bool)
        ensures
            b == self@.can_store(),
    {
        let mut length = self.data.len();
        while self.pointer >= length
            invariant
                grown_len(length as nat, self.pointer as nat) == grown_len(
                    self.data@.len(),
                    self.pointer as nat,
                ),
            decreases shortfall(length as nat, self.pointer as nat),
        {
            let base: usize = if length == 0 {
                1
            } else {
                length
            };
            if base > usize::MAX / 2 {
                proof {
                    lemma_grown_len(doubled(length as nat), self.pointer as nat);
                }
                return false;
            }
            length = base * 2;
        }
        true
    }

    /// The instruction that the next step dispatches, or `None` when its
    /// fetch fails. An instruction that is not materialized yet is looked up
    /// in the program source without being pulled.
    pub fn upcoming(&self) -> (instruction: Option<char>)
        requires
            self@.wf(),
        ensures
            instruction == self@.upcoming(),
    {
        if self.instruction_pointer < self.instructions.len() {
            return Some(self.instructions[self.instruction_pointer]);
        }
        let at = self.noise_stop();
        if at >= self.reader.len() {
            return None;
        }
        match self.reader[at] {
            Pulled::Char(c) => Some(c),
            Pulled::Invalid => None,
        }
    }

    /// Whether the next step stays within the machine's limits, which is what
    /// `repl` requires.
    pub fn can_step(&self) -> (b: bool)
        requires
            self@.wf(),
        ensures
            b == self@.step_in_reach(),
    {
        match self.upcoming() {
            None => true,
            Some(instruction) => {
                let reads = instruction == ',' && self.taken < self.input_reader.len()
                    && Self::is_character(self.input_reader[self.taken]);
                if instruction == '+' || instruction == '-' || reads {
                    self.can_store()
                } else {
                    true
                }
            },
        }
    }

    /// Whether `item` is a character.
    fn is_character(item: Pulled) -> (b: bool)
        ensures
            b == (item is Char),
    {
        match item {
            Pulled::Char(_) => true,
            Pulled::Invalid => false,
        }
    }

    /// Appends one unit to the input source, for a driver that reads its
    /// input only when an instruction asks for it.
    pub fn supply_input(&mut self, item: Pulled)
        ensures
            final(self)@ == (Machine { input: old(self)@.input.push(item), ..old(self)@ }),
            old(self)@.wf() ==> final(self)@.wf(),
    {
        self.input_reader.push(item);
    }

    /// The tape pointer.
    pub fn pointer(&self) -> (p: usize)
        ensures
            p == self@.pointer,
    {
        self.pointer
    }

    /// The position of the next instruction to dispatch.
    pub fn instruction_pointer(&self) -> (ip: usize)
        ensures
            ip == self@.instruction_pointer,
    {
        self.instruction_pointer
    }

    /// The instructions materialized so far.
    pub fn instructions(&self) -> (materialized: &Vec<char>)
        ensures
            materialized@ == self@.instructions,
    {
        &self.instructions
    }

    /// The number of cells that the tape stores.
    pub fn capacity(&self) -> (cells: usize)
        ensures
            cells == self@.cells.len(),
    {
        self.data.len()
    }

    /// How many units of the program source have been pulled.
    pub fn pulled(&self) -> (units: usize)
        ensures
            units == self@.pulled,
    {
        self.pulled
    }

    /// How many units of the input source have been taken.
    pub fn taken(&self) -> (units: usize)
        ensures
            units == self@.taken,
    {
        self.taken
    }
}

} // verus!

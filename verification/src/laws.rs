//! What holds of the machine in every state, proved on its model.
use vstd::prelude::*;
use vstd::arithmetic::power2::{lemma2_to64, pow2};
use crate::machine::{
    bumped, doubled, dropped, first_close, grown_len, last_open, moved_right_by, shortfall,
    Machine,
};
use crate::stream::{
    carried, discarded, halt_at, halting, kept, lemma_halt_at, lemma_halt_at_skip,
    lemma_noise_end, lemma_symbols_is_filter, lemma_symbols_skip, lemma_symbols_split,
    lemma_symbols_step, lemma_symbols_usable, noise_end, symbols, usable, Pulled, StreamError,
};

verus! {

/// Growing never shrinks the storage, and always makes the address
/// addressable.
pub proof fn lemma_grown_len(len: nat, addr: nat)
    ensures
        len <= grown_len(len, addr),
        addr < grown_len(len, addr),
    decreases shortfall(len, addr),
{
    if addr >= len {
        lemma_grown_len(doubled(len), addr);
    }
}

/// A pull keeps the invariant: after it, the materialized instructions are
/// again the instruction symbols of everything pulled, in their order.
pub proof fn lemma_pull_wf(m: Machine)
    requires
        m.wf(),
    ensures
        m.pull().0.wf(),
        m.pulled <= m.pull().0.pulled,
        m.pull().1 is Ok ==> m.pulled < m.pull().0.pulled,
{
    let at = noise_end(m.source, m.pulled);
    lemma_noise_end(m.source, m.pulled);
    assert forall|k: int| m.pulled <= k < at implies !kept(#[trigger] m.source[k]) by {
        assert(discarded(m.source[k]));
    }
    lemma_symbols_skip(m.source, 0, m.pulled as int, at as int);
    if at < m.source.len() {
        lemma_symbols_step(m.source, 0, at as int);
    }
}

/// How one pull advances a forward search that began at `from` and has met
/// no halting unit so far: the pull either reaches the search's end (the end
/// of the source, an encoding fault, or `]`), or leaves the search where it
/// was, one instruction further.
pub proof fn lemma_pull_within_search(m: Machine, from: nat)
    requires
        m.wf(),
        from <= m.pulled,
        halt_at(m.source, from) == halt_at(m.source, m.pulled),
    ensures
        ({
            let n = m.pull().0;
            let stop = halt_at(m.source, from);
            let seen = symbols(m.source.subrange(from as int, m.pulled as int));
            match m.pull().1 {
                Ok(_) => {
                    &&& 1 <= n.pulled <= m.source.len()
                    &&& n.instructions == m.instructions.push(carried(m.source[n.pulled - 1]))
                    &&& symbols(m.source.subrange(from as int, n.pulled as int)) == seen.push(
                        carried(m.source[n.pulled - 1]),
                    )
                    &&& if carried(m.source[n.pulled - 1]) == ']' {
                        stop == n.pulled - 1 && m.source[stop as int] is Char
                    } else {
                        stop == halt_at(m.source, n.pulled)
                    }
                },
                Err(StreamError::ExhaustedError) => {
                    &&& stop == m.source.len()
                    &&& n.pulled == m.source.len()
                    &&& symbols(m.source.subrange(from as int, m.source.len() as int)) == seen
                },
                Err(StreamError::DecodeError) => {
                    &&& stop + 1 == n.pulled
                    &&& stop < m.source.len()
                    &&& m.source[stop as int] is Invalid
                    &&& symbols(m.source.subrange(from as int, stop as int)) == seen
                },
            }
        }),
{
    let at = noise_end(m.source, m.pulled);
    lemma_noise_end(m.source, m.pulled);
    assert forall|k: int| m.pulled <= k < at implies !kept(#[trigger] m.source[k]) && !halting(
        m.source[k],
    ) by {
        assert(discarded(m.source[k]));
    }
    lemma_halt_at_skip(m.source, m.pulled, at);
    lemma_symbols_skip(m.source, from as int, m.pulled as int, at as int);
    if at < m.source.len() {
        lemma_symbols_step(m.source, from as int, at as int);
    }
}

/// The forward search keeps the invariant, only appends to what is
/// materialized, and on success leaves the instruction pointer on an
/// instruction.
pub proof fn lemma_jump_forward_wf(m: Machine)
    requires
        m.wf(),
        m.instruction_pointer < m.instructions.len(),
    ensures
        m.jump_forward().0.wf(),
        m.jump_forward().1 is Ok ==> m.jump_forward().0.instruction_pointer
            < m.jump_forward().0.instructions.len(),
        m.instructions.is_prefix_of(m.jump_forward().0.instructions),
{
    let stop = halt_at(m.source, m.pulled);
    lemma_halt_at(m.source, m.pulled);
    lemma_first_close(m.instructions, m.instruction_pointer + 1);
    let end: int = if stop < m.source.len() && m.source[stop as int] is Char {
        (stop + 1) as int
    } else {
        stop as int
    };
    lemma_symbols_split(m.source, 0, m.pulled as int, end);
    if stop < m.source.len() && m.source[stop as int] is Invalid {
        lemma_symbols_step(m.source, 0, stop as int);
    }
}

/// What `first_close` finds: nothing before it is `]`, and the instruction at
/// it, if there is one, is.
pub proof fn lemma_first_close(instructions: Seq<char>, from: nat)
    requires
        from <= instructions.len(),
    ensures
        from <= first_close(instructions, from) <= instructions.len(),
        forall|k: int| from <= k < first_close(instructions, from) ==> instructions[k] != ']',
        first_close(instructions, from) < instructions.len() ==> instructions[first_close(
            instructions,
            from,
        ) as int] == ']',
    decreases instructions.len() - from,
{
    if from < instructions.len() && instructions[from as int] != ']' {
        lemma_first_close(instructions, from + 1);
    }
}

/// What `last_open` finds: a `[` before the given position, with no `[`
/// between the two.
pub proof fn lemma_last_open(instructions: Seq<char>, before: nat)
    requires
        before <= instructions.len(),
    ensures
        match last_open(instructions, before) {
            Some(open) => {
                &&& open < before
                &&& instructions[open as int] == '['
                &&& forall|k: int| open < k < before ==> instructions[k] != '['
            },
            None => forall|k: int| 0 <= k < before ==> instructions[k] != '[',
        },
    decreases before,
{
    if before > 0 && instructions[before - 1] != '[' {
        lemma_last_open(instructions, (before - 1) as nat);
    }
}

/// A step keeps the invariant, and what was materialized stays: the step
/// only appends to it.
pub proof fn lemma_step_wf(m: Machine)
    requires
        m.wf(),
    ensures
        m.step().0.wf(),
        m.instructions.is_prefix_of(m.step().0.instructions),
{
    lemma_pull_wf(m);
    let f = m.fetch().0;
    if m.fetch().1 is Ok {
        let c = f.instructions[f.instruction_pointer as int];
        if c == '[' && f.current() == 0 {
            lemma_jump_forward_wf(f);
        }
        if c == ']' {
            lemma_last_open(f.instructions, f.instruction_pointer);
        }
    }
}

/// The filtering law. In every state that the interpreter reaches, the
/// materialized instructions are the units pulled so far, filtered by
/// membership in the alphabet and in the order in which they came; and once
/// a pull has found the source exhausted, they are the instruction symbols
/// of the whole source.
pub proof fn lemma_materialized_is_filtered(m: Machine)
    requires
        m.wf(),
    ensures
        m.instructions == m.source.subrange(0, m.pulled as int).filter(
            |p: Pulled| kept(p),
        ).map_values(|p: Pulled| carried(p)),
        forall|i: int| 0 <= i < m.instructions.len() ==> usable(#[trigger] m.instructions[i]),
        m.pull().1 == Err::<(), StreamError>(StreamError::ExhaustedError)
            ==> m.pull().0.instructions == symbols(m.source),
{
    lemma_symbols_is_filter(m.source.subrange(0, m.pulled as int));
    lemma_symbols_usable(m.source.subrange(0, m.pulled as int));
    lemma_pull_wf(m);
    assert(m.source.subrange(0, m.source.len() as int) =~= m.source);
}

/// A step changes no cell but the one under the pointer, and that one only
/// when the step writes.
pub proof fn lemma_step_keeps_other_cells(m: Machine, addr: int)
    requires
        m.wf(),
        !(addr == m.pointer && m.step_stores()),
    ensures
        m.step().0.cell(addr) == m.cell(addr),
{
    let f = m.fetch().0;
    lemma_grown_len(f.cells.len(), f.pointer as nat);
}

/// A cell keeps its value over any number of steps, none of which writes
/// while the pointer is at its address.
pub proof fn lemma_untouched_cell_keeps_value(m: Machine, addr: int, n: nat)
    requires
        m.wf(),
        forall|k: nat| k < n ==> !(addr == (#[trigger] m.after(k)).pointer && m.after(k).step_stores()),
    ensures
        m.after(n).wf(),
        m.after(n).cell(addr) == m.cell(addr),
    decreases n,
{
    if n > 0 {
        let earlier = (n - 1) as nat;
        lemma_untouched_cell_keeps_value(m, addr, earlier);
        lemma_step_wf(m.after(earlier));
        lemma_step_keeps_other_cells(m.after(earlier), addr);
    }
}

/// An address that was never written reads zero: on a fresh machine, after
/// any number of steps none of which writes while the pointer is at that
/// address, the cell there is zero.
pub proof fn lemma_unwritten_cell_reads_zero(
    source: Seq<Pulled>,
    input: Seq<Pulled>,
    addr: int,
    n: nat,
)
    requires
        forall|k: nat|
            k < n ==> !(addr == (#[trigger] Machine::fresh(source, input).after(k)).pointer
                && Machine::fresh(source, input).after(k).step_stores()),
    ensures
        Machine::fresh(source, input).after(n).cell(addr) == 0,
{
    let m = Machine::fresh(source, input);
    assert(source.subrange(0, 0) =~= Seq::<Pulled>::empty());
    lemma_untouched_cell_keeps_value(m, addr, n);
}

/// Moves to the right add up.
pub proof fn lemma_moved_right_by_sum(p: usize, a: nat, b: nat)
    ensures
        moved_right_by(p, a + b) == moved_right_by(moved_right_by(p, a), b),
    decreases b,
{
    if b > 0 {
        lemma_moved_right_by_sum(p, a, (b - 1) as nat);
        assert(a + b - 1 == a + (b - 1) as nat);
    }
}

/// As long as the end of the address space is not passed, `n` moves to the
/// right add `n` to the address.
pub proof fn lemma_moved_right_by_small(p: usize, n: nat)
    requires
        p + n <= usize::MAX,
    ensures
        moved_right_by(p, n) == p + n,
    decreases n,
{
    if n > 0 {
        lemma_moved_right_by_small(p, (n - 1) as nat);
    }
}

/// The wraparound law: as many moves to the right as the address space has
/// addresses, two to the power of the width of an address, bring the pointer
/// back to where it was.
pub proof fn lemma_pointer_wraps_around(p: usize)
    ensures
        moved_right_by(p, (usize::MAX + 1) as nat) == p,
        moved_right_by(p, pow2(usize::BITS as nat)) == p,
{
    assert(pow2(usize::BITS as nat) == usize::MAX + 1) by {
        lemma2_to64();
    }
    let to_end = (usize::MAX - p) as nat;
    lemma_moved_right_by_small(p, to_end);
    assert(moved_right_by(p, to_end + 1) == 0) by {
        assert((to_end + 1 - 1) as nat == to_end);
    }
    lemma_moved_right_by_small(0, p as nat);
    lemma_moved_right_by_sum(p, to_end + 1, p as nat);
    assert(to_end + 1 + p as nat == (usize::MAX + 1) as nat);
}

/// Cell arithmetic wraps at 32 bits, and the two steps undo each other.
pub proof fn lemma_cell_arithmetic_wraps(v: u32)
    ensures
        dropped(0) == u32::MAX,
        bumped(u32::MAX) == 0,
        bumped(dropped(v)) == v,
        dropped(bumped(v)) == v,
{
}

} // verus!

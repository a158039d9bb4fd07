//! The instruction alphabet and the filtering view over a raw character source.
//!
//! A source is a sequence of pulled units. What the machine materializes from
//! it is the subsequence of its instruction symbols, in the order in which
//! they came.
use vstd::prelude::*;

verus! {

/// One unit pulled from a raw character source.
#[derive(Clone, Copy, Debug, PartialEq, Eq, Structural)]
pub enum Pulled {
    /// A character that decoded correctly.
    Char(char),
    /// A position at which the source held invalid text encoding.
    Invalid,
}

/// Why a pull from a character source failed.
#[derive(Clone, Copy, Debug, PartialEq, Eq, Structural)]
pub enum StreamError {
    /// The source produced invalid text encoding.
    DecodeError,
    /// The source has no more data.
    ExhaustedError,
}

/// Membership in the instruction alphabet.
pub open spec fn usable(c: char) -> bool {
    c == '>' || c == '<' || c == '+' || c == '-' || c == '.' || c == ',' || c == '[' || c == ']'
}

/// Tells whether `c` is one of the eight instruction symbols.
pub fn is_usable(c: char) -> (b: bool)
    ensures
        b == usable(c),
{
    c == '>' || c == '<' || c == '+' || c == '-' || c == '.' || c == ',' || c == '[' || c == ']'
}

/// A unit that becomes an instruction when it is pulled.
pub open spec fn kept(item: Pulled) -> bool {
    match item {
        Pulled::Char(c) => usable(c),
        Pulled::Invalid => false,
    }
}

/// A unit that a pull silently drops: a well-decoded character outside the
/// alphabet.
pub open spec fn discarded(item: Pulled) -> bool {
    match item {
        Pulled::Char(c) => !usable(c),
        Pulled::Invalid => false,
    }
}

/// A unit that ends a forward search for `]`: the bracket itself, or an
/// encoding fault.
pub open spec fn halting(item: Pulled) -> bool {
    match item {
        Pulled::Char(c) => c == ']',
        Pulled::Invalid => true,
    }
}

/// The character that a unit carries (of an `Invalid` unit, nothing is said).
pub open spec fn carried(item: Pulled) -> char {
    match item {
        Pulled::Char(c) => c,
        Pulled::Invalid => arbitrary(),
    }
}

/// The instruction symbols among `items`, in the order in which they came.
pub open spec fn symbols(items: Seq<Pulled>) -> Seq<char>
    decreases items.len(),
{
    if items.len() == 0 {
        Seq::empty()
    } else if kept(items.last()) {
        symbols(items.drop_last()).push(carried(items.last()))
    } else {
        symbols(items.drop_last())
    }
}

/// The first position at or after `from` whose unit is not discarded, or the
/// length of `source` when every remaining unit is discarded.
pub open spec fn noise_end(source: Seq<Pulled>, from: nat) -> nat
    decreases source.len() - from,
{
    if from >= source.len() {
        source.len()
    } else if discarded(source[from as int]) {
        noise_end(source, from + 1)
    } else {
        from
    }
}

/// The first position at or after `from` whose unit is halting, or the length
/// of `source` when there is none.
pub open spec fn halt_at(source: Seq<Pulled>, from: nat) -> nat
    decreases source.len() - from,
{
    if from >= source.len() {
        source.len()
    } else if halting(source[from as int]) {
        from
    } else {
        halt_at(source, from + 1)
    }
}

/// `symbols` is the standard filter of a sequence, followed by taking each
/// unit's character.
pub proof fn lemma_symbols_is_filter(items: Seq<Pulled>)
    ensures
        symbols(items) == items.filter(|p: Pulled| kept(p)).map_values(|p: Pulled| carried(p)),
    decreases items.len(),
{
    let keep = |p: Pulled| kept(p);
    let carry = |p: Pulled| carried(p);
    reveal(Seq::filter);
    if items.len() == 0 {
        assert(items.filter(keep).map_values(carry) =~= Seq::<char>::empty());
    } else {
        lemma_symbols_is_filter(items.drop_last());
        let init = items.drop_last().filter(keep);
        if kept(items.last()) {
            assert(items.filter(keep) == init.push(items.last()));
            assert(init.push(items.last()).map_values(carry) =~= init.map_values(carry).push(
                carried(items.last()),
            ));
        } else {
            assert(items.filter(keep) == init);
        }
    }
}

/// Every symbol of a source is in the alphabet.
pub proof fn lemma_symbols_usable(items: Seq<Pulled>)
    ensures
        forall|i: int| 0 <= i < symbols(items).len() ==> usable(#[trigger] symbols(items)[i]),
        symbols(items).len() <= items.len(),
    decreases items.len(),
{
    if items.len() > 0 {
        lemma_symbols_usable(items.drop_last());
    }
}

/// Taking one more unit of a source appends that unit's character when it is
/// kept, and changes nothing otherwise.
pub proof fn lemma_symbols_step(source: Seq<Pulled>, from: int, to: int)
    requires
        0 <= from <= to < source.len(),
    ensures
        symbols(source.subrange(from, to + 1)) == if kept(source[to]) {
            symbols(source.subrange(from, to)).push(carried(source[to]))
        } else {
            symbols(source.subrange(from, to))
        },
{
    let longer = source.subrange(from, to + 1);
    assert(longer.drop_last() =~= source.subrange(from, to));
    assert(longer.last() == source[to]);
}

/// A stretch without kept units adds no symbol.
pub proof fn lemma_symbols_skip(source: Seq<Pulled>, from: int, mid: int, to: int)
    requires
        0 <= from <= mid <= to <= source.len(),
        forall|k: int| mid <= k < to ==> !kept(#[trigger] source[k]),
    ensures
        symbols(source.subrange(from, to)) == symbols(source.subrange(from, mid)),
    decreases to - mid,
{
    if mid < to {
        lemma_symbols_skip(source, from, mid, to - 1);
        lemma_symbols_step(source, from, to - 1);
    }
}

/// The symbols of a source split at any position.
pub proof fn lemma_symbols_split(source: Seq<Pulled>, from: int, mid: int, to: int)
    requires
        0 <= from <= mid <= to <= source.len(),
    ensures
        symbols(source.subrange(from, to)) == symbols(source.subrange(from, mid)) + symbols(
            source.subrange(mid, to),
        ),
    decreases to - mid,
{
    if mid == to {
        assert(source.subrange(mid, to) =~= Seq::<Pulled>::empty());
        assert(symbols(source.subrange(from, mid)) + Seq::<char>::empty() =~= symbols(
            source.subrange(from, mid),
        ));
    } else {
        lemma_symbols_split(source, from, mid, to - 1);
        lemma_symbols_step(source, from, to - 1);
        lemma_symbols_step(source, mid, to - 1);
        let a = symbols(source.subrange(from, mid));
        let b = symbols(source.subrange(mid, to - 1));
        if kept(source[to - 1]) {
            assert((a + b).push(carried(source[to - 1])) =~= a + b.push(carried(source[to - 1])));
        }
    }
}

/// What `noise_end` finds: everything before it is discarded, and the unit at
/// it, if there is one, is not.
pub proof fn lemma_noise_end(source: Seq<Pulled>, from: nat)
    requires
        from <= source.len(),
    ensures
        from <= noise_end(source, from) <= source.len(),
        forall|k: int| from <= k < noise_end(source, from) ==> discarded(#[trigger] source[k]),
        noise_end(source, from) < source.len() ==> !discarded(
            source[noise_end(source, from) as int],
        ),
    decreases source.len() - from,
{
    if from < source.len() && discarded(source[from as int]) {
        lemma_noise_end(source, from + 1);
    }
}

/// What `halt_at` finds: nothing before it is halting, and the unit at it, if
/// there is one, is.
pub proof fn lemma_halt_at(source: Seq<Pulled>, from: nat)
    requires
        from <= source.len(),
    ensures
        from <= halt_at(source, from) <= source.len(),
        forall|k: int| from <= k < halt_at(source, from) ==> !halting(#[trigger] source[k]),
        halt_at(source, from) < source.len() ==> halting(source[halt_at(source, from) as int]),
    decreases source.len() - from,
{
    if from < source.len() && !halting(source[from as int]) {
        lemma_halt_at(source, from + 1);
    }
}

/// A search for a halting unit may start later, as long as it skips none.
pub proof fn lemma_halt_at_skip(source: Seq<Pulled>, from: nat, to: nat)
    requires
        from <= to <= source.len(),
        forall|k: int| from <= k < to ==> !halting(#[trigger] source[k]),
    ensures
        halt_at(source, from) == halt_at(source, to),
    decreases to - from,
{
    if from < to {
        lemma_halt_at_skip(source, from + 1, to);
    }
}

} // verus!

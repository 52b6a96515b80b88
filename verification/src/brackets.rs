//! The nesting of loops: how deep a program is at each place, and what it
//! means that its brackets match.

use crate::token::{BrainfuckToken, CompressedBrainfuckToken};
use vstd::prelude::*;

verus! {

/// The nesting depth gained from `from` up to, and without, `to`: one for
/// each loop opened there, minus one for each loop closed.
pub open spec fn balance(units: Seq<CompressedBrainfuckToken>, from: int, to: int) -> int
    decreases to - from,
{
    if to <= from {
        0
    } else {
        balance(units, from, to - 1) + units[to - 1].token.depth_change()
    }
}

/// Whether `close` ends a stretch that starts at `open` and gains no depth.
/// The first such place after a `LoopStart` at `open` holds the `LoopEnd`
/// that matches it.
pub open spec fn closes(units: Seq<CompressedBrainfuckToken>, open: int, close: int) -> bool {
    open <= close < units.len() && balance(units, open, close + 1) == 0
}

/// Every `LoopStart` has a `LoopEnd` that matches it.
pub open spec fn is_balanced(units: Seq<CompressedBrainfuckToken>) -> bool {
    forall|open: int|
        #![trigger units[open]]
        0 <= open < units.len() && units[open].token == BrainfuckToken::LoopStart ==> exists|
            close: int,
        |
            closes(units, open, close)
}

/// No `LoopEnd` comes where no loop is open: with `open_loops` loops open at
/// the start, the depth is at no place below zero.
pub open spec fn loop_ends_matched(open_loops: nat, units: Seq<CompressedBrainfuckToken>) -> bool {
    forall|k: int| 0 <= k <= units.len() ==> open_loops + #[trigger] balance(units, 0, k) >= 0
}

/// The depth gained over a stretch of a program depends on nothing after the
/// stretch.
pub proof fn lemma_balance_of_prefix(
    units: Seq<CompressedBrainfuckToken>,
    prefix: int,
    from: int,
    to: int,
)
    requires
        0 <= from,
        to <= prefix <= units.len(),
    ensures
        balance(units.take(prefix), from, to) == balance(units, from, to),
    decreases to - from,
{
    if to > from {
        lemma_balance_of_prefix(units, prefix, from, to - 1);
    }
}

/// The depth gained over two stretches that follow each other is the sum of
/// what each gains.
pub proof fn lemma_balance_split(
    units: Seq<CompressedBrainfuckToken>,
    from: int,
    middle: int,
    to: int,
)
    requires
        from <= middle <= to,
    ensures
        balance(units, from, to) == balance(units, from, middle) + balance(units, middle, to),
    decreases to - middle,
{
    if to > middle {
        lemma_balance_split(units, from, middle, to - 1);
    }
}

/// The last place up to `upto` at which the program is as deep as at its
/// start.
proof fn lemma_last_ground(units: Seq<CompressedBrainfuckToken>, upto: int) -> (place: int)
    requires
        0 <= upto,
    ensures
        0 <= place <= upto,
        balance(units, 0, place) == 0,
        forall|later: int| place < later <= upto ==> balance(units, 0, later) != 0,
    decreases upto,
{
    if balance(units, 0, upto) == 0 {
        upto
    } else {
        lemma_last_ground(units, upto - 1)
    }
}

/// A program whose brackets match, and in which no `LoopEnd` comes where no
/// loop is open, ends as deep as it starts: no loop is left open.
pub proof fn lemma_balanced_ends_closed(units: Seq<CompressedBrainfuckToken>)
    requires
        is_balanced(units),
        loop_ends_matched(0, units),
    ensures
        balance(units, 0, units.len() as int) == 0,
{
    let place = lemma_last_ground(units, units.len() as int);
    if place < units.len() {
        // After `place` the depth is never zero again, so that the command
        // there opens a loop, and that loop is never closed.
        assert(balance(units, 0, place + 1) >= 0);
        assert(units[place].token == BrainfuckToken::LoopStart);
        let close = choose|close: int| closes(units, place, close);
        lemma_balance_split(units, 0, place, close + 1);
        assert(balance(units, 0, close + 1) == 0);
    }
}

} // verus!

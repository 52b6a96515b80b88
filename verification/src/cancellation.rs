//! The sweep that cancels neighbouring opposites, and what holds of it.

use crate::run_length::is_well_formed;
use crate::token::{BrainfuckToken, CompressedBrainfuckToken};
use vstd::prelude::*;

verus! {

/// Whether two neighbouring runs cancel: the kind of one undoes the kind of
/// the other.
pub open spec fn cancels(left: CompressedBrainfuckToken, right: CompressedBrainfuckToken) -> bool {
    right.token.opposite() == Some(left.token)
}

/// What is left of two neighbouring runs that cancel: nothing where they
/// count the same, else the longer one, shortened by the count of the other.
pub open spec fn remainder(
    left: CompressedBrainfuckToken,
    right: CompressedBrainfuckToken,
) -> Seq<CompressedBrainfuckToken> {
    if left.num == right.num {
        Seq::empty()
    } else if left.num > right.num {
        seq![CompressedBrainfuckToken { token: left.token, num: (left.num - right.num) as u64 }]
    } else {
        seq![CompressedBrainfuckToken { token: right.token, num: (right.num - left.num) as u64 }]
    }
}

/// One sweep from `cursor` to the end. A pair that cancels at the cursor is
/// replaced by what is left of it and the cursor stays, so that the pair now
/// at the cursor is looked at next; otherwise the cursor moves on by one. What
/// lies before the cursor is never looked at again.
pub open spec fn swept(units: Seq<CompressedBrainfuckToken>, cursor: int) -> Seq<
    CompressedBrainfuckToken,
>
    decreases units.len(), units.len() - cursor,
{
    if cursor < 0 || cursor + 1 >= units.len() {
        units
    } else if cancels(units[cursor], units[cursor + 1]) {
        swept(
            units.take(cursor) + remainder(units[cursor], units[cursor + 1]) + units.skip(
                cursor + 2,
            ),
            cursor,
        )
    } else {
        swept(units, cursor + 1)
    }
}

/// What the canceller makes of a program: one sweep from its start.
pub open spec fn cancelled(units: Seq<CompressedBrainfuckToken>) -> Seq<CompressedBrainfuckToken> {
    swept(units, 0)
}

/// No two neighbouring runs cancel.
pub open spec fn is_reduced(units: Seq<CompressedBrainfuckToken>) -> bool {
    forall|i: int, j: int|
        #![trigger units[i], units[j]]
        0 <= i && j == i + 1 && j < units.len() ==> !cancels(units[i], units[j])
}

/// What a run adds to the net count of a kind of command: its count if it is
/// of that kind, its count taken away if it undoes that kind, and nothing
/// otherwise.
pub open spec fn contribution(unit: CompressedBrainfuckToken, kind: BrainfuckToken) -> int {
    if unit.token == kind {
        unit.num as int
    } else if unit.token.opposite() == Some(kind) {
        -(unit.num as int)
    } else {
        0
    }
}

/// The net count of a kind of command in a program: how many more commands
/// of the kind it holds than commands that undo them.
pub open spec fn net_count(units: Seq<CompressedBrainfuckToken>, kind: BrainfuckToken) -> int
    decreases units.len(),
{
    if units.len() == 0 {
        0
    } else {
        net_count(units.drop_last(), kind) + contribution(units.last(), kind)
    }
}

/// A sweep never lengthens a program.
pub proof fn lemma_swept_len(units: Seq<CompressedBrainfuckToken>, cursor: int)
    ensures
        swept(units, cursor).len() <= units.len(),
    decreases units.len(), units.len() - cursor,
{
    if cursor < 0 || cursor + 1 >= units.len() {
    } else if cancels(units[cursor], units[cursor + 1]) {
        lemma_swept_len(
            units.take(cursor) + remainder(units[cursor], units[cursor + 1]) + units.skip(
                cursor + 2,
            ),
            cursor,
        );
    } else {
        lemma_swept_len(units, cursor + 1);
    }
}

/// A sweep leaves a program as it is where no two neighbours cancel.
pub proof fn lemma_swept_reduced(units: Seq<CompressedBrainfuckToken>, cursor: int)
    requires
        is_reduced(units),
    ensures
        swept(units, cursor) == units,
    decreases units.len() - cursor,
{
    if cursor < 0 || cursor + 1 >= units.len() {
    } else {
        assert(!cancels(units[cursor], units[cursor + 1]));
        lemma_swept_reduced(units, cursor + 1);
    }
}

/// A sweep shortens a program where two neighbours cancel at the cursor or
/// after it.
pub proof fn lemma_swept_shortens(units: Seq<CompressedBrainfuckToken>, cursor: int, pair: int)
    requires
        0 <= cursor <= pair,
        pair + 1 < units.len(),
        cancels(units[pair], units[pair + 1]),
    ensures
        swept(units, cursor).len() < units.len(),
    decreases units.len() - cursor,
{
    if cancels(units[cursor], units[cursor + 1]) {
        lemma_swept_len(
            units.take(cursor) + remainder(units[cursor], units[cursor + 1]) + units.skip(
                cursor + 2,
            ),
            cursor,
        );
    } else {
        lemma_swept_shortens(units, cursor + 1, pair);
    }
}

/// The canceller leaves a program as it is if and only if no two neighbours
/// in it cancel.
pub proof fn lemma_cancelled_fixed(units: Seq<CompressedBrainfuckToken>)
    ensures
        cancelled(units) == units <==> is_reduced(units),
{
    if is_reduced(units) {
        lemma_swept_reduced(units, 0);
    } else {
        let (i, j) = choose|i: int, j: int|
            #![trigger units[i], units[j]]
            0 <= i && j == i + 1 && j < units.len() && cancels(units[i], units[j]);
        lemma_swept_shortens(units, 0, i);
    }
}

/// Cancelling a second time changes nothing, provided that the first sweep
/// left no two neighbours that cancel.
///
/// One sweep can leave such neighbours: it does not look back, and a pair
/// that it removes may have stood between two runs that cancel each other.
pub proof fn lemma_cancelled_idempotent(units: Seq<CompressedBrainfuckToken>)
    requires
        is_reduced(cancelled(units)),
    ensures
        cancelled(cancelled(units)) == cancelled(units),
{
    lemma_cancelled_fixed(cancelled(units));
}

/// Where the first sweep leaves two neighbours that cancel, a second sweep
/// gives a shorter program.
pub proof fn lemma_cancelled_again_shorter(units: Seq<CompressedBrainfuckToken>)
    requires
        !is_reduced(cancelled(units)),
    ensures
        cancelled(cancelled(units)).len() < cancelled(units).len(),
{
    let once = cancelled(units);
    let (i, j) = choose|i: int, j: int|
        #![trigger once[i], once[j]]
        0 <= i && j == i + 1 && j < once.len() && cancels(once[i], once[j]);
    lemma_swept_shortens(once, 0, i);
}

/// A sweep keeps a program well formed: what is left of a run is not empty,
/// and atomic commands cancel in full.
pub proof fn lemma_swept_well_formed(units: Seq<CompressedBrainfuckToken>, cursor: int)
    requires
        is_well_formed(units),
    ensures
        is_well_formed(swept(units, cursor)),
    decreases units.len(), units.len() - cursor,
{
    if cursor < 0 || cursor + 1 >= units.len() {
    } else if cancels(units[cursor], units[cursor + 1]) {
        let left = units[cursor];
        let right = units[cursor + 1];
        let next = units.take(cursor) + remainder(left, right) + units.skip(cursor + 2);
        assert forall|i: int| #![trigger next[i]] 0 <= i < next.len() implies next[i].num >= 1 && (
        next[i].token.is_atomic() ==> next[i].num == 1) by {
            if i < cursor {
                assert(next[i] == units[i]);
            } else if i < cursor + remainder(left, right).len() {
                assert(next[i] == remainder(left, right)[0]);
            } else {
                assert(next[i] == units[i - remainder(left, right).len() + 2]);
            }
        }
        lemma_swept_well_formed(next, cursor);
    } else {
        lemma_swept_well_formed(units, cursor + 1);
    }
}

/// The canceller keeps a program well formed.
pub proof fn lemma_cancelled_well_formed(units: Seq<CompressedBrainfuckToken>)
    requires
        is_well_formed(units),
    ensures
        is_well_formed(cancelled(units)),
{
    lemma_swept_well_formed(units, 0);
}

proof fn lemma_net_count_add(
    front: Seq<CompressedBrainfuckToken>,
    back: Seq<CompressedBrainfuckToken>,
    kind: BrainfuckToken,
)
    ensures
        net_count(front + back, kind) == net_count(front, kind) + net_count(back, kind),
    decreases back.len(),
{
    if back.len() == 0 {
        assert(front + back == front);
    } else {
        assert((front + back).drop_last() == front + back.drop_last());
        lemma_net_count_add(front, back.drop_last(), kind);
    }
}

proof fn lemma_net_count_pair(
    left: CompressedBrainfuckToken,
    right: CompressedBrainfuckToken,
    kind: BrainfuckToken,
)
    requires
        cancels(left, right),
    ensures
        net_count(seq![left, right], kind) == contribution(left, kind) + contribution(right, kind),
        net_count(remainder(left, right), kind) == contribution(left, kind) + contribution(
            right,
            kind,
        ),
{
    reveal_with_fuel(net_count, 3);
    let pair = seq![left, right];
    assert(pair.drop_last() == seq![left]);
    assert(pair.last() == right);
    assert(seq![left].drop_last() == Seq::<CompressedBrainfuckToken>::empty());
    assert(seq![left].last() == left);
    let rest = remainder(left, right);
    if rest.len() > 0 {
        assert(rest.drop_last() == Seq::<CompressedBrainfuckToken>::empty());
        assert(net_count(rest, kind) == contribution(rest.last(), kind));
    }
    assert(left.token.opposite() == Some(right.token));
}

/// A sweep keeps the net count of every kind of command.
pub proof fn lemma_swept_net_count(
    units: Seq<CompressedBrainfuckToken>,
    cursor: int,
    kind: BrainfuckToken,
)
    ensures
        net_count(swept(units, cursor), kind) == net_count(units, kind),
    decreases units.len(), units.len() - cursor,
{
    if cursor < 0 || cursor + 1 >= units.len() {
    } else if cancels(units[cursor], units[cursor + 1]) {
        let left = units[cursor];
        let right = units[cursor + 1];
        let front = units.take(cursor);
        let back = units.skip(cursor + 2);
        assert(units == front + seq![left, right] + back);
        lemma_net_count_add(front, seq![left, right], kind);
        lemma_net_count_add(front + seq![left, right], back, kind);
        lemma_net_count_add(front, remainder(left, right), kind);
        lemma_net_count_add(front + remainder(left, right), back, kind);
        lemma_net_count_pair(left, right, kind);
        lemma_swept_net_count(front + remainder(left, right) + back, cursor, kind);
    } else {
        lemma_swept_net_count(units, cursor + 1, kind);
    }
}

/// The canceller keeps the net count of every kind of command: what it
/// takes away of a kind, it takes away of the kind that undoes it.
pub proof fn lemma_cancelled_net_count(units: Seq<CompressedBrainfuckToken>, kind: BrainfuckToken)
    ensures
        net_count(cancelled(units), kind) == net_count(units, kind),
{
    lemma_swept_net_count(units, 0, kind);
}

} // verus!

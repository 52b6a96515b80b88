//! Programs as runs of commands: what a sequence of runs stands for, the
//! form that the compressor gives it, and why that form is the only one.

use crate::token::{BrainfuckToken, CompressedBrainfuckToken};
use vstd::prelude::*;

verus! {

/// The commands that a sequence of runs stands for: every run replayed as
/// many times as it counts.
pub open spec fn expanded(units: Seq<CompressedBrainfuckToken>) -> Seq<BrainfuckToken>
    decreases units.len(),
{
    if units.len() == 0 {
        Seq::empty()
    } else {
        expanded(units.drop_last()) + Seq::new(
            units.last().num as nat,
            |i: int| units.last().token,
        )
    }
}

/// The sum of the counts of a sequence of runs.
pub open spec fn total_count(units: Seq<CompressedBrainfuckToken>) -> nat
    decreases units.len(),
{
    if units.len() == 0 {
        0
    } else {
        total_count(units.drop_last()) + units.last().num as nat
    }
}

/// What holds of every run of a program: it is not empty, and an atomic
/// command stands alone.
pub open spec fn is_well_formed(units: Seq<CompressedBrainfuckToken>) -> bool {
    forall|i: int|
        #![trigger units[i]]
        0 <= i < units.len() ==> units[i].num >= 1 && (units[i].token.is_atomic() ==> units[i].num
            == 1)
}

/// The shape of a compressed program: it is well formed, and two neighbours
/// of one kind are atomic, so that every run of another kind is as long as it
/// can be.
pub open spec fn is_run_length_form(units: Seq<CompressedBrainfuckToken>) -> bool {
    &&& is_well_formed(units)
    &&& forall|i: int, j: int|
        #![trigger units[i], units[j]]
        0 <= i && j == i + 1 && j < units.len() && units[i].token == units[j].token
            ==> units[i].token.is_atomic()
}

/// The run-length form of a sequence of commands: the one sequence of runs
/// in run-length form that stands for these commands.
pub open spec fn compressed(tokens: Seq<BrainfuckToken>) -> Seq<CompressedBrainfuckToken> {
    choose|units: Seq<CompressedBrainfuckToken>|
        is_run_length_form(units) && expanded(units) == tokens
}

/// A sequence of runs with one more run stands for the commands of the
/// sequence and then those of the run.
pub proof fn lemma_expanded_push(
    units: Seq<CompressedBrainfuckToken>,
    unit: CompressedBrainfuckToken,
)
    ensures
        expanded(units.push(unit)) == expanded(units) + Seq::new(
            unit.num as nat,
            |i: int| unit.token,
        ),
        total_count(units.push(unit)) == total_count(units) + unit.num,
{
    assert(units.push(unit).drop_last() == units);
}

/// A sequence of runs stands for as many commands as its counts add up to.
pub proof fn lemma_expanded_len(units: Seq<CompressedBrainfuckToken>)
    ensures
        expanded(units).len() == total_count(units),
    decreases units.len(),
{
    if units.len() > 0 {
        lemma_expanded_len(units.drop_last());
    }
}

/// A well-formed program has at most as many runs as commands, and fewer as
/// soon as one run counts more than one command.
pub proof fn lemma_total_count_bounds(units: Seq<CompressedBrainfuckToken>)
    requires
        is_well_formed(units),
    ensures
        units.len() <= total_count(units),
        (exists|i: int| 0 <= i < units.len() && units[i].num > 1) ==> units.len() < total_count(
            units,
        ),
    decreases units.len(),
{
    if units.len() > 0 {
        let front = units.drop_last();
        assert forall|i: int| #![trigger front[i]] 0 <= i < front.len() implies front[i].num >= 1
            && (front[i].token.is_atomic() ==> front[i].num == 1) by {
            assert(front[i] == units[i]);
        }
        lemma_total_count_bounds(front);
        assert(units[units.len() - 1].num >= 1);
        if exists|i: int| 0 <= i < units.len() && units[i].num > 1 {
            let i = choose|i: int| 0 <= i < units.len() && units[i].num > 1;
            if i < front.len() {
                assert(front[i] == units[i]);
            }
        }
    }
}

proof fn lemma_run_length_form_front(units: Seq<CompressedBrainfuckToken>)
    requires
        is_run_length_form(units),
        units.len() > 0,
    ensures
        is_run_length_form(units.drop_last()),
{
    let front = units.drop_last();
    assert forall|i: int| #![trigger front[i]] 0 <= i < front.len() implies front[i].num >= 1 && (
    front[i].token.is_atomic() ==> front[i].num == 1) by {
        assert(front[i] == units[i]);
    }
    assert forall|i: int, j: int|
        #![trigger front[i], front[j]]
        0 <= i && j == i + 1 && j < front.len() && front[i].token
            == front[j].token implies front[i].token.is_atomic() by {
        assert(front[i] == units[i]);
        assert(front[j] == units[j]);
    }
}

proof fn lemma_expanded_ends_in_last_run(units: Seq<CompressedBrainfuckToken>)
    requires
        is_run_length_form(units),
        units.len() > 0,
    ensures
        expanded(units).len() == expanded(units.drop_last()).len() + units.last().num,
        expanded(units).len() >= units.last().num >= 1,
        forall|p: int|
            expanded(units).len() - units.last().num <= p < expanded(units).len() ==> expanded(
                units,
            )[p] == units.last().token,
        expanded(units).take(expanded(units).len() - units.last().num) == expanded(
            units.drop_last(),
        ),
{
    assert(units[units.len() - 1].num >= 1);
    assert(expanded(units).take(expanded(units).len() - units.last().num) =~= expanded(
        units.drop_last(),
    ));
}

proof fn lemma_last_run_not_shorter(
    a: Seq<CompressedBrainfuckToken>,
    b: Seq<CompressedBrainfuckToken>,
)
    requires
        is_run_length_form(a),
        is_run_length_form(b),
        expanded(a) == expanded(b),
        a.len() > 0,
        b.len() > 0,
    ensures
        a.last().token == b.last().token,
        a.last().num >= b.last().num,
{
    let text = expanded(a);
    lemma_expanded_ends_in_last_run(a);
    lemma_expanded_ends_in_last_run(b);
    assert(text[text.len() - 1] == a.last().token);
    assert(text[text.len() - 1] == b.last().token);
    if a.last().num < b.last().num {
        // The command before the last run of `a` lies in the last run of `b`,
        // so that the last two runs of `a` are of one kind, which is atomic.
        let front = a.drop_last();
        let p = text.len() - a.last().num - 1;
        assert(text[p] == b.last().token);
        assert(expanded(front).len() > 0);
        assert(front.len() > 0);
        lemma_run_length_form_front(a);
        lemma_expanded_ends_in_last_run(front);
        assert(expanded(front)[p] == front.last().token);
        assert(text.take(text.len() - a.last().num)[p] == text[p]);
        assert(front.last() == a[a.len() - 2]);
        assert(a.last() == a[a.len() - 1]);
        assert(a[a.len() - 2].token.is_atomic());
        assert(b[b.len() - 1].num == 1);
        assert(a[a.len() - 1].num >= 1);
    }
}

/// Two sequences of runs in run-length form that stand for the same commands
/// are the same.
pub proof fn lemma_run_length_form_unique(
    a: Seq<CompressedBrainfuckToken>,
    b: Seq<CompressedBrainfuckToken>,
)
    requires
        is_run_length_form(a),
        is_run_length_form(b),
        expanded(a) == expanded(b),
    ensures
        a == b,
    decreases a.len(),
{
    if a.len() == 0 || b.len() == 0 {
        if a.len() > 0 {
            lemma_expanded_ends_in_last_run(a);
        }
        if b.len() > 0 {
            lemma_expanded_ends_in_last_run(b);
        }
        assert(a =~= b);
    } else {
        lemma_last_run_not_shorter(a, b);
        lemma_last_run_not_shorter(b, a);
        lemma_expanded_ends_in_last_run(a);
        lemma_expanded_ends_in_last_run(b);
        lemma_run_length_form_front(a);
        lemma_run_length_form_front(b);
        lemma_run_length_form_unique(a.drop_last(), b.drop_last());
        assert(a.last() == b.last());
        assert(a =~= a.drop_last().push(a.last()));
        assert(b =~= b.drop_last().push(b.last()));
    }
}

} // verus!

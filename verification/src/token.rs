//! Commands of the source language, and the passes that run over them before
//! any block is emitted: lexing, run-length compression, cancellation of
//! neighbouring opposites, and the bracket check.

use crate::brackets::{balance, closes, is_balanced};
use crate::cancellation::{
    cancelled, lemma_cancelled_net_count, lemma_cancelled_well_formed, net_count, remainder, swept,
};
use crate::run_length::{
    compressed, expanded, is_run_length_form, is_well_formed, lemma_expanded_len,
    lemma_expanded_push, lemma_run_length_form_unique, lemma_total_count_bounds, total_count,
};
use vstd::prelude::*;

verus! {

/// One command of the source language.
///
/// `Invalid` stands for a byte that is no command. It exists between the
/// conversion of a byte and the filter of the lexer, and nowhere after it.
#[derive(Debug, PartialEq, Eq, Clone, Copy, Structural)]
pub enum BrainfuckToken {
    Next,
    Prev,
    Add,
    Sub,
    Out,
    Input,
    LoopStart,
    LoopEnd,
    Invalid,
}

/// A run of `num` adjacent commands of the kind `token`.
#[derive(Debug, PartialEq, Eq, Clone, Copy, Structural)]
pub struct CompressedBrainfuckToken {
    pub token: BrainfuckToken,
    pub num: u64,
}

impl BrainfuckToken {
    /// The command that undoes this one, where there is one.
    pub open spec fn opposite(self) -> Option<BrainfuckToken> {
        match self {
            BrainfuckToken::Next => Some(BrainfuckToken::Prev),
            BrainfuckToken::Prev => Some(BrainfuckToken::Next),
            BrainfuckToken::Add => Some(BrainfuckToken::Sub),
            BrainfuckToken::Sub => Some(BrainfuckToken::Add),
            BrainfuckToken::LoopStart => Some(BrainfuckToken::LoopEnd),
            BrainfuckToken::LoopEnd => Some(BrainfuckToken::LoopStart),
            BrainfuckToken::Out => None,
            BrainfuckToken::Input => None,
            BrainfuckToken::Invalid => None,
        }
    }

    /// Whether a command is an event of its own: input, output and the two
    /// brackets are never merged into a run.
    pub open spec fn is_atomic(self) -> bool {
        self == BrainfuckToken::Out || self == BrainfuckToken::Input || self
            == BrainfuckToken::LoopStart || self == BrainfuckToken::LoopEnd
    }

    /// What a command adds to the nesting depth.
    pub open spec fn depth_change(self) -> int {
        match self {
            BrainfuckToken::LoopStart => 1,
            BrainfuckToken::LoopEnd => -1,
            _ => 0,
        }
    }

    /// The command that undoes this one, where there is one.
    pub fn to_opposite(self) -> (opposite: Option<BrainfuckToken>)
        ensures
            opposite == self.opposite(),
    {
        match self {
            BrainfuckToken::Next => Some(Self::Prev),
            BrainfuckToken::Prev => Some(Self::Next),
            BrainfuckToken::Add => Some(Self::Sub),
            BrainfuckToken::Sub => Some(Self::Add),
            BrainfuckToken::LoopStart => Some(Self::LoopEnd),
            BrainfuckToken::LoopEnd => Some(Self::LoopStart),
            BrainfuckToken::Input => None,
            BrainfuckToken::Out => None,
            BrainfuckToken::Invalid => None,
        }
    }
}

/// The byte `>`: move the pointer right.
pub const BYTE_NEXT: u8 = 0x3e;

/// The byte `<`: move the pointer left.
pub const BYTE_PREV: u8 = 0x3c;

/// The byte `+`: increment the cell.
pub const BYTE_ADD: u8 = 0x2b;

/// The byte `-`: decrement the cell.
pub const BYTE_SUB: u8 = 0x2d;

/// The byte `.`: write the cell.
pub const BYTE_OUT: u8 = 0x2e;

/// The byte `,`: read into the cell.
pub const BYTE_INPUT: u8 = 0x2c;

/// The byte `[`: open a loop.
pub const BYTE_LOOP_START: u8 = 0x5b;

/// The byte `]`: close a loop.
pub const BYTE_LOOP_END: u8 = 0x5d;

/// The command that a byte spells, and `Invalid` for a byte that spells none.
pub open spec fn token_of_byte(byte: u8) -> BrainfuckToken {
    if byte == BYTE_NEXT {
        BrainfuckToken::Next
    } else if byte == BYTE_PREV {
        BrainfuckToken::Prev
    } else if byte == BYTE_ADD {
        BrainfuckToken::Add
    } else if byte == BYTE_SUB {
        BrainfuckToken::Sub
    } else if byte == BYTE_OUT {
        BrainfuckToken::Out
    } else if byte == BYTE_INPUT {
        BrainfuckToken::Input
    } else if byte == BYTE_LOOP_START {
        BrainfuckToken::LoopStart
    } else if byte == BYTE_LOOP_END {
        BrainfuckToken::LoopEnd
    } else {
        BrainfuckToken::Invalid
    }
}

/// The command that a byte contributes to a program: none for a byte that
/// spells no command.
pub open spec fn command_of_byte(byte: u8) -> Option<BrainfuckToken> {
    if token_of_byte(byte) == BrainfuckToken::Invalid {
        None
    } else {
        Some(token_of_byte(byte))
    }
}

/// The commands of a source text, in order; every other byte is a comment.
pub open spec fn lexed(source: Seq<u8>) -> Seq<BrainfuckToken> {
    source.filter_map(|byte: u8| command_of_byte(byte))
}

/// What can spell a command.
pub trait BfToken {
    /// Whether it spells one.
    fn is_valid_token(self) -> bool;
}

impl BfToken for u8 {
    /// Whether the byte spells a command.
    fn is_valid_token(self) -> (valid: bool)
        ensures
            valid == command_of_byte(self).is_some(),
    {
        self == BYTE_NEXT || self == BYTE_PREV || self == BYTE_ADD || self == BYTE_SUB || self
            == BYTE_OUT || self == BYTE_INPUT || self == BYTE_LOOP_START || self == BYTE_LOOP_END
    }
}

impl Into<BrainfuckToken> for u8 {
    /// The command that the byte spells: `token_of_byte`.
    fn into(self) -> (token: BrainfuckToken) {
        if self == BYTE_NEXT {
            BrainfuckToken::Next
        } else if self == BYTE_PREV {
            BrainfuckToken::Prev
        } else if self == BYTE_ADD {
            BrainfuckToken::Add
        } else if self == BYTE_SUB {
            BrainfuckToken::Sub
        } else if self == BYTE_OUT {
            BrainfuckToken::Out
        } else if self == BYTE_INPUT {
            BrainfuckToken::Input
        } else if self == BYTE_LOOP_START {
            BrainfuckToken::LoopStart
        } else if self == BYTE_LOOP_END {
            BrainfuckToken::LoopEnd
        } else {
            BrainfuckToken::Invalid
        }
    }
}

impl vstd::std_specs::convert::IntoSpecImpl<BrainfuckToken> for u8 {
    open spec fn obeys_into_spec() -> bool {
        true
    }

    open spec fn into_spec(self) -> BrainfuckToken {
        token_of_byte(self)
    }
}

/// Lexes a source text: one command for each byte that spells one, in the
/// order of the text. No byte is an error.
pub fn lex(source: &[u8]) -> (tokens: Vec<BrainfuckToken>)
    ensures
        tokens@ == lexed(source@),
        tokens@.len() <= source@.len(),
        forall|i: int| 0 <= i < tokens@.len() ==> tokens@[i] != BrainfuckToken::Invalid,
{
    let mut tokens: Vec<BrainfuckToken> = Vec::new();
    let mut index: usize = 0;
    while index < source.len()
        invariant
            index <= source@.len(),
            tokens@ == lexed(source@.take(index as int)),
            tokens@.len() <= index,
            forall|i: int| 0 <= i < tokens@.len() ==> tokens@[i] != BrainfuckToken::Invalid,
        decreases source@.len() - index,
    {
        let byte = source[index];
        proof {
            source@.lemma_filter_map_take_succ(|byte: u8| command_of_byte(byte), index as int);
        }
        if byte.is_valid_token() {
            tokens.push(byte.into());
        }
        index += 1;
    }
    assert(source@.take(index as int) == source@);
    tokens
}

/// Commands that can be grouped into runs.
pub trait CompressableTokenCollection {
    /// The runs of the commands.
    fn compress(self) -> Vec<CompressedBrainfuckToken>;
}

impl CompressableTokenCollection for Vec<BrainfuckToken> {
    /// Groups the commands into runs. Replaying the runs gives the commands
    /// back, and the runs are in run-length form: the result is the one
    /// sequence of runs of which both hold.
    fn compress(self) -> (units: Vec<CompressedBrainfuckToken>)
        ensures
            units@ == compressed(self@),
            expanded(units@) == self@,
            is_run_length_form(units@),
            total_count(units@) == self@.len(),
            units@.len() <= self@.len(),
            (exists|i: int| 0 <= i < units@.len() && units@[i].num > 1) ==> units@.len()
                < self@.len(),
    {
        let mut units: Vec<CompressedBrainfuckToken> = Vec::new();
        let mut index: usize = 0;
        while index < self.len()
            invariant
                index <= self@.len(),
                expanded(units@) == self@.take(index as int),
                is_run_length_form(units@),
                units@.len() > 0 && index < self@.len() && units@.last().token == self@[index as int]
                    ==> units@.last().token.is_atomic(),
            decreases self@.len() - index,
        {
            let current = self[index];
            let ghost before = units@;
            match current {
                BrainfuckToken::Out
                | BrainfuckToken::Input
                | BrainfuckToken::LoopStart
                | BrainfuckToken::LoopEnd => {
                    let unit = CompressedBrainfuckToken { token: current, num: 1 };
                    units.push(unit);
                    proof {
                        lemma_expanded_push(before, unit);
                        assert(self@.take(index + 1) == self@.take(index as int) + Seq::new(
                            1,
                            |i: int| current,
                        ));
                    }
                    index += 1;
                },
                _ => {
                    let mut count: u64 = 0;
                    let mut end: usize = index;
                    while end < self.len() && self[end] == current
                        invariant
                            index <= end <= self@.len(),
                            index < self@.len(),
                            count == end - index,
                            forall|k: int| index <= k < end ==> self@[k] == current,
                        decreases self@.len() - end,
                    {
                        count += 1;
                        end += 1;
                    }
                    let unit = CompressedBrainfuckToken { token: current, num: count };
                    units.push(unit);
                    proof {
                        lemma_expanded_push(before, unit);
                        assert(self@.take(end as int) == self@.take(index as int) + Seq::new(
                            count as nat,
                            |i: int| current,
                        ));
                    }
                    index = end;
                },
            }
        }
        proof {
            assert(self@.take(index as int) == self@);
            lemma_expanded_len(units@);
            lemma_total_count_bounds(units@);
            lemma_run_length_form_unique(units@, compressed(self@));
        }
        units
    }
}

/// Programs in which neighbouring opposites can be cancelled.
pub trait CleanableTokenCollection {
    /// The program after one sweep of cancellation.
    fn clean(self) -> Self;
}

impl CleanableTokenCollection for Vec<CompressedBrainfuckToken> {
    /// Cancels neighbouring opposites in one sweep from left to right. The
    /// program does not get longer, it stays well formed, and the net count
    /// of every kind of command stays what it was.
    fn clean(self) -> (cleaned: Self)
        ensures
            cleaned@ == cancelled(self@),
            cleaned@.len() <= self@.len(),
            is_well_formed(self@) ==> is_well_formed(cleaned@),
            forall|kind: BrainfuckToken|
                #[trigger] net_count(cleaned@, kind) == net_count(self@, kind),
    {
        proof {
            if is_well_formed(self@) {
                lemma_cancelled_well_formed(self@);
            }
            assert forall|kind: BrainfuckToken| #[trigger]
                net_count(cancelled(self@), kind) == net_count(self@, kind) by {
                lemma_cancelled_net_count(self@, kind);
            }
        }
        let mut cleaned = self;
        let mut idx: usize = 0;
        while cleaned.len() >= 2 && idx < cleaned.len() - 1
            invariant
                idx <= cleaned@.len(),
                cleaned@.len() <= self@.len(),
                swept(cleaned@, idx as int) == cancelled(self@),
            decreases cleaned@.len(), cleaned@.len() - idx,
        {
            let left = cleaned[idx];
            let right = cleaned[idx + 1];
            let ghost before = cleaned@;
            let cancel = match right.token.to_opposite() {
                Some(undone) => undone == left.token,
                None => false,
            };
            if cancel {
                if left.num == right.num {
                    cleaned.remove(idx);
                    cleaned.remove(idx);
                } else if left.num > right.num {
                    cleaned.set(
                        idx,
                        CompressedBrainfuckToken { token: left.token, num: left.num - right.num },
                    );
                    cleaned.remove(idx + 1);
                } else {
                    cleaned.set(
                        idx + 1,
                        CompressedBrainfuckToken { token: right.token, num: right.num - left.num },
                    );
                    cleaned.remove(idx);
                }
                assert(cleaned@ == before.take(idx as int) + remainder(left, right) + before.skip(
                    idx + 2,
                ));
            } else {
                idx += 1;
            }
        }
        cleaned
    }
}

/// Programs whose brackets can be checked.
pub trait ValidTokenCollection {
    /// Whether every `LoopStart` has a `LoopEnd` that matches it.
    fn validate(&self) -> bool;
}

impl ValidTokenCollection for Vec<CompressedBrainfuckToken> {
    /// Checks the brackets: from each `LoopStart` on, the depth is followed
    /// until it is back where it was. Counts play no part.
    fn validate(&self) -> (valid: bool)
        ensures
            valid == is_balanced(self@),
    {
        let mut index: usize = 0;
        while index < self.len()
            invariant
                index <= self@.len(),
                forall|open: int|
                    #![trigger self@[open]]
                    0 <= open < index && self@[open].token == BrainfuckToken::LoopStart
                        ==> exists|close: int| closes(self@, open, close),
            decreases self@.len() - index,
        {
            if self[index].token == BrainfuckToken::LoopStart {
                let mut depth: usize = 0;
                let mut subindex: usize = index;
                let mut closed = false;
                while subindex < self.len() && !closed
                    invariant
                        index <= subindex <= self@.len(),
                        index < self@.len(),
                        self@[index as int].token == BrainfuckToken::LoopStart,
                        closed ==> exists|close: int| closes(self@, index as int, close),
                        !closed ==> depth == balance(self@, index as int, subindex as int),
                        !closed ==> depth <= subindex - index,
                        !closed && subindex > index ==> depth >= 1,
                        !closed ==> forall|close: int|
                            index <= close < subindex ==> !closes(self@, index as int, close),
                    decreases self@.len() - subindex, (if closed { 0int } else { 1int }),
                {
                    match self[subindex].token {
                        BrainfuckToken::LoopStart => {
                            depth += 1;
                        },
                        BrainfuckToken::LoopEnd => {
                            depth -= 1;
                        },
                        _ => {},
                    }
                    if depth == 0 {
                        closed = true;
                        assert(closes(self@, index as int, subindex as int));
                    } else {
                        subindex += 1;
                    }
                }
                if !closed {
                    return false;
                }
            }
            index += 1;
        }
        true
    }
}

} // verus!

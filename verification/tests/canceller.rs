use bf_qbe::token::{
    lex, BrainfuckToken, CleanableTokenCollection, CompressableTokenCollection,
    CompressedBrainfuckToken,
};

fn unit(token: BrainfuckToken, num: u64) -> CompressedBrainfuckToken {
    CompressedBrainfuckToken { token, num }
}

fn net(units: &[CompressedBrainfuckToken], kind: BrainfuckToken) -> i64 {
    let mut sum = 0i64;
    for unit in units {
        if unit.token == kind {
            sum += unit.num as i64;
        } else if unit.token.to_opposite() == Some(kind) {
            sum -= unit.num as i64;
        }
    }
    sum
}

#[test]
fn increment_and_decrement_cancel_to_nothing() {
    assert_eq!(lex(b"+-").compress().clean(), Vec::new());
}

#[test]
fn empty_program_stays_empty() {
    assert_eq!(Vec::<CompressedBrainfuckToken>::new().clean(), Vec::new());
}

#[test]
fn a_single_run_is_left_alone() {
    assert_eq!(vec![unit(BrainfuckToken::Add, 4)].clean(), vec![unit(BrainfuckToken::Add, 4)]);
}

#[test]
fn the_longer_left_run_keeps_the_difference() {
    assert_eq!(
        vec![unit(BrainfuckToken::Add, 5), unit(BrainfuckToken::Sub, 2)].clean(),
        vec![unit(BrainfuckToken::Add, 3)]
    );
}

#[test]
fn the_longer_right_run_keeps_the_difference() {
    assert_eq!(
        vec![unit(BrainfuckToken::Next, 2), unit(BrainfuckToken::Prev, 7)].clean(),
        vec![unit(BrainfuckToken::Prev, 5)]
    );
}

#[test]
fn every_pair_of_opposites_cancels_in_both_orders() {
    let pairs = [
        (BrainfuckToken::Next, BrainfuckToken::Prev),
        (BrainfuckToken::Add, BrainfuckToken::Sub),
        (BrainfuckToken::LoopStart, BrainfuckToken::LoopEnd),
    ];
    for (one, other) in pairs {
        assert_eq!(vec![unit(one, 1), unit(other, 1)].clean(), Vec::new());
        assert_eq!(vec![unit(other, 1), unit(one, 1)].clean(), Vec::new());
    }
}

#[test]
fn runs_that_are_no_opposites_are_left_alone() {
    let units = vec![
        unit(BrainfuckToken::Add, 1),
        unit(BrainfuckToken::Next, 1),
        unit(BrainfuckToken::Out, 1),
        unit(BrainfuckToken::Input, 1),
        unit(BrainfuckToken::Sub, 1),
        unit(BrainfuckToken::Prev, 1),
    ];
    assert_eq!(units.clone().clean(), units);
}

#[test]
fn equal_runs_of_one_kind_do_not_cancel() {
    let units = vec![unit(BrainfuckToken::Out, 1), unit(BrainfuckToken::Out, 1)];
    assert_eq!(units.clone().clean(), units);
}

#[test]
fn what_is_left_of_a_pair_is_looked_at_again_with_its_new_neighbour() {
    // +3 -1 leaves +2, which then meets -2.
    assert_eq!(
        vec![
            unit(BrainfuckToken::Add, 3),
            unit(BrainfuckToken::Sub, 1),
            unit(BrainfuckToken::Sub, 2),
            unit(BrainfuckToken::Out, 1),
        ]
        .clean(),
        vec![unit(BrainfuckToken::Out, 1)]
    );
}

#[test]
fn a_pair_that_opens_up_before_the_cursor_is_not_revisited() {
    // The moves in the middle cancel once the cursor has passed the increment.
    assert_eq!(
        lex(b"++><--").compress().clean(),
        vec![unit(BrainfuckToken::Add, 2), unit(BrainfuckToken::Sub, 2)]
    );
}

#[test]
fn cleaning_twice_equals_cleaning_once_when_no_opposites_are_left() {
    for source in [&b"+-"[..], b"+++-->><", b"[->+<]", b"+>-<", b",.,.", b""] {
        let once = lex(source).compress().clean();
        let twice = once.clone().clean();
        assert_eq!(twice, once);
    }
}

#[test]
fn cleaning_twice_is_shorter_when_the_first_sweep_leaves_opposites() {
    let once = lex(b"++><--").compress().clean();
    let twice = once.clone().clean();
    assert_eq!(once.len(), 2);
    assert_eq!(twice, Vec::new());
}

#[test]
fn a_program_without_neighbouring_opposites_is_unchanged() {
    let units = lex(b"+>+>+[.>]").compress();
    assert_eq!(units.clone().clean(), units);
}

#[test]
fn brackets_cancel_like_any_other_opposites() {
    assert_eq!(lex(b"[]").compress().clean(), Vec::new());
    assert_eq!(
        lex(b"[[]]").compress().clean(),
        vec![unit(BrainfuckToken::LoopStart, 1), unit(BrainfuckToken::LoopEnd, 1)]
    );
    assert_eq!(lex(b"][").compress().clean(), Vec::new());
}

#[test]
fn cleaning_never_lengthens_and_keeps_every_net_count() {
    let kinds = [
        BrainfuckToken::Next,
        BrainfuckToken::Prev,
        BrainfuckToken::Add,
        BrainfuckToken::Sub,
        BrainfuckToken::Out,
        BrainfuckToken::Input,
        BrainfuckToken::LoopStart,
        BrainfuckToken::LoopEnd,
    ];
    for source in [&b"+++--->><<<.,"[..], b"++><--", b"[+-]><[]", b"-+-+-+>"] {
        let units = lex(source).compress();
        let cleaned = units.clone().clean();
        assert!(cleaned.len() <= units.len());
        for kind in kinds {
            assert_eq!(net(&cleaned, kind), net(&units, kind));
        }
    }
}

#[test]
fn counts_of_zero_and_of_the_largest_size_are_subtracted_exactly() {
    assert_eq!(
        vec![unit(BrainfuckToken::Add, u64::MAX), unit(BrainfuckToken::Sub, 1)].clean(),
        vec![unit(BrainfuckToken::Add, u64::MAX - 1)]
    );
    assert_eq!(
        vec![unit(BrainfuckToken::Add, 0), unit(BrainfuckToken::Sub, 2)].clean(),
        vec![unit(BrainfuckToken::Sub, 2)]
    );
}

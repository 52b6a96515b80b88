use bf_qbe::token::{
    lex, BrainfuckToken, CompressableTokenCollection, CompressedBrainfuckToken,
    ValidTokenCollection,
};

fn units_of(source: &[u8]) -> Vec<CompressedBrainfuckToken> {
    lex(source).compress()
}

#[test]
fn nested_loops_are_balanced() {
    assert!(units_of(b"[[]]").validate());
}

#[test]
fn a_loop_that_is_not_closed_is_unbalanced() {
    assert!(!units_of(b"[[]").validate());
}

#[test]
fn a_loop_that_opens_after_its_end_is_unbalanced() {
    assert!(!units_of(b"][").validate());
}

#[test]
fn empty_program_is_balanced() {
    assert!(Vec::<CompressedBrainfuckToken>::new().validate());
}

#[test]
fn program_without_brackets_is_balanced() {
    assert!(units_of(b"+++>>>.,<<<---").validate());
}

#[test]
fn a_single_open_bracket_is_unbalanced() {
    assert!(!units_of(b"[").validate());
    assert!(!units_of(b"+[+").validate());
}

#[test]
fn only_loop_starts_are_looked_for_a_match() {
    assert!(units_of(b"]").validate());
    assert!(units_of(b"[]]").validate());
    assert!(units_of(b"]]]").validate());
}

#[test]
fn loops_side_by_side_and_nested_are_balanced() {
    assert!(units_of(b"[-][>[+]<][[[]]]").validate());
}

#[test]
fn an_inner_loop_left_open_makes_the_program_unbalanced() {
    assert!(!units_of(b"[[-]").validate());
    assert!(!units_of(b"[][").validate());
}

#[test]
fn counts_play_no_part_in_the_bracket_check() {
    let units = vec![
        CompressedBrainfuckToken { token: BrainfuckToken::LoopStart, num: 9 },
        CompressedBrainfuckToken { token: BrainfuckToken::Add, num: 0 },
        CompressedBrainfuckToken { token: BrainfuckToken::LoopEnd, num: 2 },
    ];
    assert!(units.validate());
}

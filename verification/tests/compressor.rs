use bf_qbe::token::{lex, BrainfuckToken, CompressableTokenCollection, CompressedBrainfuckToken};

fn unit(token: BrainfuckToken, num: u64) -> CompressedBrainfuckToken {
    CompressedBrainfuckToken { token, num }
}

fn replay(units: &[CompressedBrainfuckToken]) -> Vec<BrainfuckToken> {
    let mut tokens = Vec::new();
    for unit in units {
        for _ in 0..unit.num {
            tokens.push(unit.token);
        }
    }
    tokens
}

fn is_atomic(token: BrainfuckToken) -> bool {
    matches!(
        token,
        BrainfuckToken::Out
            | BrainfuckToken::Input
            | BrainfuckToken::LoopStart
            | BrainfuckToken::LoopEnd
    )
}

#[test]
fn runs_of_increments_and_moves_are_counted() {
    assert_eq!(
        lex(b"+++>++").compress(),
        vec![
            unit(BrainfuckToken::Add, 3),
            unit(BrainfuckToken::Next, 1),
            unit(BrainfuckToken::Add, 2),
        ]
    );
}

#[test]
fn empty_command_sequence_compresses_to_nothing() {
    assert_eq!(Vec::<BrainfuckToken>::new().compress(), Vec::new());
}

#[test]
fn a_single_command_is_a_run_of_one() {
    assert_eq!(vec![BrainfuckToken::Sub].compress(), vec![unit(BrainfuckToken::Sub, 1)]);
}

#[test]
fn atomic_commands_are_never_merged() {
    assert_eq!(
        lex(b"..,,[[]]").compress(),
        vec![
            unit(BrainfuckToken::Out, 1),
            unit(BrainfuckToken::Out, 1),
            unit(BrainfuckToken::Input, 1),
            unit(BrainfuckToken::Input, 1),
            unit(BrainfuckToken::LoopStart, 1),
            unit(BrainfuckToken::LoopStart, 1),
            unit(BrainfuckToken::LoopEnd, 1),
            unit(BrainfuckToken::LoopEnd, 1),
        ]
    );
}

#[test]
fn each_of_the_four_mergeable_kinds_is_merged() {
    assert_eq!(
        lex(b">>>><<<++-----").compress(),
        vec![
            unit(BrainfuckToken::Next, 4),
            unit(BrainfuckToken::Prev, 3),
            unit(BrainfuckToken::Add, 2),
            unit(BrainfuckToken::Sub, 5),
        ]
    );
}

#[test]
fn a_run_ends_at_an_atomic_command_and_starts_again_after_it() {
    assert_eq!(
        lex(b"++.++").compress(),
        vec![
            unit(BrainfuckToken::Add, 2),
            unit(BrainfuckToken::Out, 1),
            unit(BrainfuckToken::Add, 2),
        ]
    );
}

#[test]
fn a_run_that_reaches_the_end_is_counted_in_full() {
    assert_eq!(lex(b"[-]>>>").compress().last(), Some(&unit(BrainfuckToken::Next, 3)));
}

#[test]
fn counts_add_up_to_the_number_of_commands() {
    let tokens = lex(b"++[>+++.<-],,--->>");
    let units = tokens.clone().compress();
    let total: u64 = units.iter().map(|unit| unit.num).sum();
    assert_eq!(total, tokens.len() as u64);
    assert_eq!(total, 18);
}

#[test]
fn neighbours_of_one_kind_are_atomic() {
    let units = lex(b"++..>>[[--]]<<,,+").compress();
    for pair in units.windows(2) {
        assert!(pair[0].token != pair[1].token || is_atomic(pair[0].token));
    }
    for unit in &units {
        assert!(unit.num >= 1);
        assert!(!is_atomic(unit.token) || unit.num == 1);
    }
}

#[test]
fn replaying_the_runs_gives_the_commands_back() {
    let tokens = lex(b"+++[>>,.<<-]..++--><");
    let units = tokens.clone().compress();
    assert_eq!(replay(&units), tokens);
}

#[test]
fn compressed_program_is_shorter_exactly_when_a_run_is_longer_than_one() {
    let merged = lex(b"+-++");
    assert_eq!(merged.clone().compress().len(), 3);
    assert!(merged.clone().compress().len() < merged.len());
    let single = lex(b"+-+-[].,");
    assert_eq!(single.clone().compress().len(), single.len());
}

#[test]
fn invalid_commands_that_reach_the_compressor_are_merged_like_moves() {
    assert_eq!(
        vec![BrainfuckToken::Invalid, BrainfuckToken::Invalid, BrainfuckToken::Add].compress(),
        vec![unit(BrainfuckToken::Invalid, 2), unit(BrainfuckToken::Add, 1)]
    );
}

use bf_qbe::compiler::{compile, CompileError};
use bf_qbe::ir::QBEIr;
use bf_qbe::token::{lex, CleanableTokenCollection, CompressableTokenCollection};

fn module_by_stages(source: &[u8]) -> qbe::Module {
    let mut ir = QBEIr::new();
    ir.init_body().token_array_to_qbe_ir(lex(source).compress().clean()).close_prog();
    ir.into_program()
}

#[test]
fn a_balanced_program_compiles_to_one_function() {
    let module = compile(b"++[>+<-]>.", false).unwrap();
    assert_eq!(module.functions.len(), 1);
    assert_eq!(module.functions[0].name, "main");
    assert!(module.types.is_empty());
    assert!(module.data.is_empty());
}

#[test]
fn compiling_equals_running_the_stages_one_by_one() {
    for source in [&b""[..], b"+", b"hello [->+<] world", b",[.,]", b"+++-->><<.[[-]>]"] {
        assert_eq!(compile(source, false), Ok(module_by_stages(source)));
        assert_eq!(compile(source, true), Ok(module_by_stages(source)));
    }
}

#[test]
fn the_empty_source_compiles_to_a_program_that_returns() {
    let module = compile(b"", false).unwrap();
    let expected = "export function w $main() {\n\
                    @start.1\n\
                    \t%stack =l alloc4 30000\n\
                    \t%stackptr =l alloc4 4\n\
                    @body.2\n\
                    \tstorew 0, %stackptr\n\
                    \tret 0\n\
                    }\n";
    assert_eq!(format!("{}", module), expected);
}

#[test]
fn a_loop_compiles_to_the_expected_text() {
    let module = compile(b"[->+<]", false).unwrap();
    let expected = "export function w $main() {\n\
                    @start.1\n\
                    \t%stack =l alloc4 30000\n\
                    \t%stackptr =l alloc4 4\n\
                    @body.2\n\
                    \tstorew 0, %stackptr\n\
                    @while_cond.3\n\
                    \t%.0 =w loadw %stackptr\n\
                    \t%.1 =l extsw %.0\n\
                    \t%.2 =l mul %.1, 1\n\
                    \t%.3 =l add %stack, %.2\n\
                    \t%.4 =w loadsb %.3\n\
                    \t%.5 =w extsb %.4\n\
                    \t%.6 =w cnew %.5, 0\n\
                    \tjnz %.6, @while_body.4, @while_join.5\n\
                    @while_body.4\n\
                    \t%.7 =w loadw %stackptr\n\
                    \t%.8 =l extsw %.7\n\
                    \t%.9 =l mul %.8, 1\n\
                    \t%.10 =l add %stack, %.9\n\
                    \t%.11 =w loadsb %.10\n\
                    \t%.12 =w extsb %.11\n\
                    \t%.13 =w sub %.12, 1\n\
                    \tstoreb %.13, %.10\n\
                    \t%.14 =w loadw %stackptr\n\
                    \t%.15 =w add %.14, 1\n\
                    \tstorew %.15, %stackptr\n\
                    \t%.16 =w loadw %stackptr\n\
                    \t%.17 =l extsw %.16\n\
                    \t%.18 =l mul %.17, 1\n\
                    \t%.19 =l add %stack, %.18\n\
                    \t%.20 =w loadsb %.19\n\
                    \t%.21 =w extsb %.20\n\
                    \t%.22 =w add %.21, 1\n\
                    \tstoreb %.22, %.19\n\
                    \t%.23 =w loadw %stackptr\n\
                    \t%.24 =w sub %.23, 1\n\
                    \tstorew %.24, %stackptr\n\
                    \tjmp @while_cond.3\n\
                    @while_join.5\n\
                    \tret 0\n\
                    }\n";
    assert_eq!(format!("{}", module), expected);
}

#[test]
fn opposites_are_cancelled_before_anything_is_emitted() {
    assert_eq!(compile(b"+-", false), compile(b"", false));
    assert_eq!(compile(b"+++-", false), compile(b"++", false));
}

#[test]
fn an_open_loop_fails_the_bracket_check() {
    assert_eq!(compile(b"[", false), Err(CompileError::BracketMismatch));
    assert_eq!(compile(b"[[-]", false), Err(CompileError::BracketMismatch));
    assert_eq!(compile(b"+]>[", false), Err(CompileError::BracketMismatch));
}

#[test]
fn a_loop_end_without_a_loop_is_refused_by_the_emitter() {
    assert_eq!(compile(b"]", false), Err(CompileError::UnmatchedLoopEnd));
    assert_eq!(compile(b"]", true), Err(CompileError::UnmatchedLoopEnd));
    assert_eq!(compile(b"[-]+]", false), Err(CompileError::UnmatchedLoopEnd));
    assert_eq!(compile(b"+]>[", true), Err(CompileError::UnmatchedLoopEnd));
}

#[test]
fn a_loop_left_open_is_refused_when_the_check_is_skipped() {
    assert_eq!(compile(b"[", true), Err(CompileError::UnmatchedLoopStart));
    assert_eq!(compile(b"[[-]", true), Err(CompileError::UnmatchedLoopStart));
}

#[test]
fn skipping_the_check_changes_nothing_for_a_balanced_program() {
    assert_eq!(compile(b"+[>+<-].", true), compile(b"+[>+<-].", false));
}

#[test]
fn brackets_that_cancel_are_gone_before_the_check() {
    // "][" is cancelled to nothing, so that there is nothing left to refuse.
    assert_eq!(compile(b"][", false), compile(b"", false));
    assert_eq!(compile(b"[]", false), compile(b"", false));
}

//! The whole pipeline: from the bytes of a source text to the module that is
//! handed to a backend.

use crate::brackets;
use crate::brackets::{balance, is_balanced, lemma_balanced_ends_closed};
use crate::cancellation::cancelled;
use crate::control_flow::{jumps_lead_to, labels_distinct, lemma_every_jump_leads_to_a_block};
use crate::ir::{loop_ends_matched, QBEIr};
use crate::lowering::{lemma_run_shape, IrView};
use crate::model::{module_view, ModuleView};
use crate::run_length::compressed;
use crate::token::{
    lex, lexed, CleanableTokenCollection, CompressableTokenCollection, CompressedBrainfuckToken,
    ValidTokenCollection,
};
use vstd::prelude::*;

verus! {

/// Why a source text is not compiled.
#[derive(Debug, PartialEq, Eq, Clone, Copy, Structural)]
pub enum CompileError {
    /// The bracket check found a `[` without its `]`.
    BracketMismatch,
    /// The emitter came to a `]` where no loop was open.
    UnmatchedLoopEnd,
    /// The emitter came to the end with a loop still open.
    UnmatchedLoopStart,
}

/// The program that is emitted for a source text: its commands, compressed
/// and with neighbouring opposites cancelled.
pub open spec fn program_of(source: Seq<u8>) -> Seq<CompressedBrainfuckToken> {
    cancelled(compressed(lexed(source)))
}

/// The module for a program: one function, made by a new emitter from the
/// entry blocks and the program.
pub open spec fn module_of(units: Seq<CompressedBrainfuckToken>) -> ModuleView {
    IrView::initial().with_entry().run(units).closed().program
}

/// What compiling a source text gives. The bracket check comes first, unless
/// it is skipped. The emitter then still refuses a `]` without a loop, and a
/// loop left open at the end.
pub open spec fn compiled(source: Seq<u8>, no_check: bool) -> Result<ModuleView, CompileError> {
    let units = program_of(source);
    if !no_check && !is_balanced(units) {
        Err(CompileError::BracketMismatch)
    } else if !brackets::loop_ends_matched(0, units) {
        Err(CompileError::UnmatchedLoopEnd)
    } else if balance(units, 0, units.len() as int) != 0 {
        Err(CompileError::UnmatchedLoopStart)
    } else {
        Ok(module_of(units))
    }
}

/// After the bracket check, the emitter refuses nothing but a `]` without a
/// loop: a program that passes the check, and has no such `]`, leaves no loop
/// open.
pub proof fn lemma_checked_program_leaves_no_loop_open(source: Seq<u8>)
    ensures
        compiled(source, false) != Err::<ModuleView, CompileError>(
            CompileError::UnmatchedLoopStart,
        ),
{
    let units = program_of(source);
    if is_balanced(units) && brackets::loop_ends_matched(0, units) {
        lemma_balanced_ends_closed(units);
    }
}

/// A module that compiling gives has one function, in which every block has
/// a label of its own and every jump leads to one of the blocks.
pub proof fn lemma_compiled_module_is_closed(source: Seq<u8>, no_check: bool)
    requires
        compiled(source, no_check) is Ok,
    ensures
        compiled(source, no_check)->Ok_0.functions.len() == 1,
        labels_distinct(compiled(source, no_check)->Ok_0.functions[0].blocks),
        jumps_lead_to(compiled(source, no_check)->Ok_0.functions[0].blocks, Seq::empty()),
{
    let units = program_of(source);
    let state = IrView::initial().with_entry().run(units);
    lemma_every_jump_leads_to_a_block(units);
    lemma_run_shape(IrView::initial().with_entry(), units);
    assert(module_of(units).functions == state.program.functions.push(state.finished_function()));
    assert(state.program.functions.len() == 0);
}

/// What a result of `compile` holds.
pub open spec fn result_view(result: Result<qbe::Module, CompileError>) -> Result<
    ModuleView,
    CompileError,
> {
    match result {
        Ok(module) => Ok(module_view(module)),
        Err(error) => Err(error),
    }
}

/// Compiles a source text to a module. With `no_check` the bracket check is
/// skipped.
pub fn compile(source: &[u8], no_check: bool) -> (result: Result<qbe::Module, CompileError>)
    ensures
        result_view(result) == compiled(source@, no_check),
{
    let units = lex(source).compress().clean();
    if !no_check && !units.validate() {
        return Err(CompileError::BracketMismatch);
    }
    if !loop_ends_matched(0, &units) {
        return Err(CompileError::UnmatchedLoopEnd);
    }
    let mut ir = QBEIr::new();
    ir.init_body();
    ir.token_array_to_qbe_ir(units);
    if ir.loop_depth() != 0 {
        return Err(CompileError::UnmatchedLoopStart);
    }
    ir.close_prog();
    Ok(ir.into_program())
}

} // verus!

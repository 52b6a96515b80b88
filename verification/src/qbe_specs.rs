//! What is assumed of the `qbe` crate: its data types, and the few functions
//! of it that the emitter calls.
//!
//! The types that the emitter builds are plain data with public fields, and
//! are declared with these. Verus reads their definitions from the crate
//! itself, so that nothing is assumed of them: verified code makes their
//! values, and contracts speak of what is in them. `TypeDef` and `DataDef`
//! are only carried along and are declared opaque.
//!
//! Of the functions, each contract says what the body of the function in the
//! crate does to the fields.

use crate::model::function_view;
use vstd::prelude::*;

verus! {

/// `qbe::Value`: a temporary, a global or a constant.
#[verifier::external_type_specification]
pub struct ExValue(qbe::Value);

/// `qbe::Cmp`: the comparison operators.
#[verifier::external_type_specification]
pub struct ExCmp(qbe::Cmp);

/// `qbe::TypeDef`: the definition of an aggregate type. The emitter has none.
#[verifier::external_type_specification]
#[verifier::external_body]
pub struct ExTypeDef(qbe::TypeDef);

/// `qbe::DataDef`: a data definition. The emitter has none.
#[verifier::external_type_specification]
#[verifier::external_body]
pub struct ExDataDef(qbe::DataDef);

/// `qbe::Type`: the types of values.
#[verifier::external_type_specification]
pub struct ExType(qbe::Type);

/// `qbe::Instr`: the instructions.
#[verifier::external_type_specification]
pub struct ExInstr(qbe::Instr);

/// `qbe::Statement`: an instruction, with or without a temporary that takes
/// its result.
#[verifier::external_type_specification]
pub struct ExStatement(qbe::Statement);

/// `qbe::BlockItem`: a statement or a comment.
#[verifier::external_type_specification]
pub struct ExBlockItem(qbe::BlockItem);

/// `qbe::Block`: a label and the items under it.
#[verifier::external_type_specification]
pub struct ExBlock(qbe::Block);

/// `qbe::Linkage`: how a definition is seen from outside its module.
#[verifier::external_type_specification]
pub struct ExLinkage(qbe::Linkage);

/// `qbe::Function`: a function definition.
#[verifier::external_type_specification]
pub struct ExFunction(qbe::Function);

/// `qbe::Module`: the functions, types and data of one output file.
#[verifier::external_type_specification]
pub struct ExModule(qbe::Module);

/// The base type that an extended type is held in, as `qbe::Type::into_base`
/// computes it: a word for the sub-word types, a long for an aggregate, and
/// the type itself otherwise.
pub open spec fn base_type(ty: qbe::Type) -> qbe::Type {
    match ty {
        qbe::Type::Byte
        | qbe::Type::SignedByte
        | qbe::Type::UnsignedByte
        | qbe::Type::Halfword
        | qbe::Type::SignedHalfword
        | qbe::Type::UnsignedHalfword => qbe::Type::Word,
        qbe::Type::Aggregate(_) => qbe::Type::Long,
        other => other,
    }
}

/// `qbe::Block::add_instr` appends the instruction to the block, as a
/// statement without a result.
pub assume_specification[ qbe::Block::add_instr ](block: &mut qbe::Block, instr: qbe::Instr)
    ensures
        final(block).label == old(block).label,
        final(block).items@ == old(block).items@.push(
            qbe::BlockItem::Statement(qbe::Statement::Volatile(instr)),
        ),
;

/// `qbe::Block::assign_instr` appends the instruction to the block, as a
/// statement that assigns its result to `temp`. The result has the type `ty`
/// for a call, and the base type of `ty` for every other instruction.
pub assume_specification[ qbe::Block::assign_instr ](
    block: &mut qbe::Block,
    temp: qbe::Value,
    ty: qbe::Type,
    instr: qbe::Instr,
)
    ensures
        final(block).label == old(block).label,
        final(block).items@ == old(block).items@.push(
            qbe::BlockItem::Statement(
                qbe::Statement::Assign(
                    temp,
                    if instr is Call {
                        ty
                    } else {
                        base_type(ty)
                    },
                    instr,
                ),
            ),
        ),
;

/// `qbe::Module::new` makes a module without functions, types or data.
pub assume_specification[ qbe::Module::new ]() -> (module: qbe::Module)
    ensures
        module.functions@.len() == 0,
        module.types@.len() == 0,
        module.data@.len() == 0,
;

/// `qbe::Module::add_function` appends the function to those of the module
/// and hands out a reference to it, where it now stands.
pub assume_specification[ qbe::Module::add_function ](
    module: &mut qbe::Module,
    func: qbe::Function,
) -> (added: &mut qbe::Function)
    ensures
        *added == func,
        final(module).functions@ == old(module).functions@.push(*final(added)),
        final(module).types == old(module).types,
        final(module).data == old(module).data,
;

/// `qbe::Function::new` makes a function of the given linkage, name,
/// arguments and return type, without a block.
#[verifier::external_body]
pub(crate) fn new_function(
    linkage: qbe::Linkage,
    name: String,
    arguments: Vec<(qbe::Type, qbe::Value)>,
    return_ty: Option<qbe::Type>,
) -> (function: qbe::Function)
    ensures
        function.linkage == linkage,
        function.name == name,
        function.arguments == arguments,
        function.return_ty == return_ty,
        function.blocks@.len() == 0,
{
    qbe::Function::new(linkage, name, arguments, return_ty)
}

/// `Clone::clone` of `qbe::Function`, which the crate derives: the copy
/// holds what the function holds.
#[verifier::external_body]
pub(crate) fn clone_function(function: &qbe::Function) -> (copy: qbe::Function)
    ensures
        function_view(copy) == function_view(*function),
{
    function.clone()
}

} // verus!

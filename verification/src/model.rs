//! What the values of the intermediate language hold, with every name as the
//! sequence of its characters. Contracts speak of these views.

use vstd::prelude::*;

verus! {

/// What a `qbe::Value` holds.
pub enum ValueView {
    Temporary(Seq<char>),
    Global(Seq<char>),
    Const(u64),
}

/// What a `qbe::Instr` holds, for the instructions that the emitter makes.
/// Every other instruction is `Other`.
pub enum InstrView {
    Add(ValueView, ValueView),
    Sub(ValueView, ValueView),
    Mul(ValueView, ValueView),
    Cmp(qbe::Type, qbe::Cmp, ValueView, ValueView),
    Ret(Option<ValueView>),
    Jnz(ValueView, Seq<char>, Seq<char>),
    Jmp(Seq<char>),
    Call(Seq<char>, Seq<(qbe::Type, ValueView)>, Option<u64>),
    Alloc4(u32),
    Store(qbe::Type, ValueView, ValueView),
    Load(qbe::Type, ValueView),
    Extsw(ValueView),
    Extsb(ValueView),
    Other,
}

/// What a `qbe::BlockItem` holds.
pub enum ItemView {
    Assign(ValueView, qbe::Type, InstrView),
    Volatile(InstrView),
    Comment(Seq<char>),
}

/// What a `qbe::Block` holds.
pub struct BlockView {
    pub label: Seq<char>,
    pub items: Seq<ItemView>,
}

impl BlockView {
    /// The block with `items` appended.
    pub open spec fn with_items(self, items: Seq<ItemView>) -> BlockView {
        BlockView { label: self.label, items: self.items + items }
    }
}

/// What a `qbe::Linkage` holds.
pub struct LinkageView {
    pub exported: bool,
    pub section: Option<Seq<char>>,
    pub secflags: Option<Seq<char>>,
    pub thread_local: bool,
}

/// What a `qbe::Function` holds.
pub struct FunctionView {
    pub linkage: LinkageView,
    pub name: Seq<char>,
    pub arguments: Seq<(qbe::Type, ValueView)>,
    pub return_ty: Option<qbe::Type>,
    pub blocks: Seq<BlockView>,
}

/// What a `qbe::Module` holds. Type and data definitions are taken as they
/// are.
pub struct ModuleView {
    pub functions: Seq<FunctionView>,
    pub types: Seq<std::sync::Arc<qbe::TypeDef>>,
    pub data: Seq<qbe::DataDef>,
}

/// The view of a value.
pub open spec fn value_view(value: qbe::Value) -> ValueView {
    match value {
        qbe::Value::Temporary(name) => ValueView::Temporary(name@),
        qbe::Value::Global(name) => ValueView::Global(name@),
        qbe::Value::Const(number) => ValueView::Const(number),
    }
}

/// The view of a value that may be missing.
pub open spec fn option_value_view(value: Option<qbe::Value>) -> Option<ValueView> {
    match value {
        Some(value) => Some(value_view(value)),
        None => None,
    }
}

/// The views of values that come with their types, as the arguments of a
/// call do.
pub open spec fn typed_values_view(values: Seq<(qbe::Type, qbe::Value)>) -> Seq<
    (qbe::Type, ValueView),
> {
    Seq::new(values.len(), |i: int| (values[i].0, value_view(values[i].1)))
}

/// The view of an instruction.
pub open spec fn instr_view(instr: qbe::Instr) -> InstrView {
    match instr {
        qbe::Instr::Add(lhs, rhs) => InstrView::Add(value_view(lhs), value_view(rhs)),
        qbe::Instr::Sub(lhs, rhs) => InstrView::Sub(value_view(lhs), value_view(rhs)),
        qbe::Instr::Mul(lhs, rhs) => InstrView::Mul(value_view(lhs), value_view(rhs)),
        qbe::Instr::Cmp(ty, cmp, lhs, rhs) => InstrView::Cmp(
            ty,
            cmp,
            value_view(lhs),
            value_view(rhs),
        ),
        qbe::Instr::Ret(value) => InstrView::Ret(option_value_view(value)),
        qbe::Instr::Jnz(value, if_nonzero, if_zero) => InstrView::Jnz(
            value_view(value),
            if_nonzero@,
            if_zero@,
        ),
        qbe::Instr::Jmp(label) => InstrView::Jmp(label@),
        qbe::Instr::Call(name, arguments, variadic) => InstrView::Call(
            name@,
            typed_values_view(arguments@),
            variadic,
        ),
        qbe::Instr::Alloc4(size) => InstrView::Alloc4(size),
        qbe::Instr::Store(ty, destination, value) => InstrView::Store(
            ty,
            value_view(destination),
            value_view(value),
        ),
        qbe::Instr::Load(ty, source) => InstrView::Load(ty, value_view(source)),
        qbe::Instr::Extsw(value) => InstrView::Extsw(value_view(value)),
        qbe::Instr::Extsb(value) => InstrView::Extsb(value_view(value)),
        _ => InstrView::Other,
    }
}

/// The view of an item of a block.
pub open spec fn item_view(item: qbe::BlockItem) -> ItemView {
    match item {
        qbe::BlockItem::Statement(qbe::Statement::Assign(temp, ty, instr)) => ItemView::Assign(
            value_view(temp),
            ty,
            instr_view(instr),
        ),
        qbe::BlockItem::Statement(qbe::Statement::Volatile(instr)) => ItemView::Volatile(
            instr_view(instr),
        ),
        qbe::BlockItem::Comment(text) => ItemView::Comment(text@),
    }
}

/// The views of the items of a block, in their order.
pub open spec fn items_view(items: Seq<qbe::BlockItem>) -> Seq<ItemView> {
    Seq::new(items.len(), |i: int| item_view(items[i]))
}

/// The view of a block.
pub open spec fn block_view(block: qbe::Block) -> BlockView {
    BlockView { label: block.label@, items: items_view(block.items@) }
}

/// The views of blocks, in their order.
pub open spec fn blocks_view(blocks: Seq<qbe::Block>) -> Seq<BlockView> {
    Seq::new(blocks.len(), |i: int| block_view(blocks[i]))
}

/// The characters of a text that may be missing.
pub open spec fn option_text_view(text: Option<String>) -> Option<Seq<char>> {
    match text {
        Some(text) => Some(text@),
        None => None,
    }
}

/// The view of a linkage.
pub open spec fn linkage_view(linkage: qbe::Linkage) -> LinkageView {
    LinkageView {
        exported: linkage.exported,
        section: option_text_view(linkage.section),
        secflags: option_text_view(linkage.secflags),
        thread_local: linkage.thread_local,
    }
}

/// The view of a function.
pub open spec fn function_view(function: qbe::Function) -> FunctionView {
    FunctionView {
        linkage: linkage_view(function.linkage),
        name: function.name@,
        arguments: typed_values_view(function.arguments@),
        return_ty: function.return_ty,
        blocks: blocks_view(function.blocks@),
    }
}

/// The views of functions, in their order.
pub open spec fn functions_view(functions: Seq<qbe::Function>) -> Seq<FunctionView> {
    Seq::new(functions.len(), |i: int| function_view(functions[i]))
}

/// The view of a module.
pub open spec fn module_view(module: qbe::Module) -> ModuleView {
    ModuleView {
        functions: functions_view(module.functions@),
        types: module.types@,
        data: module.data@,
    }
}

/// The view of a sequence with one more block is the view of the sequence
/// with the view of the block.
pub proof fn lemma_blocks_view_push(blocks: Seq<qbe::Block>, block: qbe::Block)
    ensures
        blocks_view(blocks.push(block)) == blocks_view(blocks).push(block_view(block)),
{
    assert(blocks_view(blocks.push(block)) =~= blocks_view(blocks).push(block_view(block)));
}

/// The view of a sequence with one block replaced is the view of the
/// sequence with the view of the block in that place.
pub proof fn lemma_blocks_view_update(blocks: Seq<qbe::Block>, index: int, block: qbe::Block)
    requires
        0 <= index < blocks.len(),
    ensures
        blocks_view(blocks.update(index, block)) == blocks_view(blocks).update(
            index,
            block_view(block),
        ),
{
    assert(blocks_view(blocks.update(index, block)) =~= blocks_view(blocks).update(
        index,
        block_view(block),
    ));
}

/// The view of two sequences joined is the views of the two, joined.
pub proof fn lemma_blocks_view_add(front: Seq<qbe::Block>, back: Seq<qbe::Block>)
    ensures
        blocks_view(front + back) == blocks_view(front) + blocks_view(back),
{
    assert(blocks_view(front + back) =~= blocks_view(front) + blocks_view(back));
}

/// The view of a sequence with one more function is the view of the
/// sequence with the view of the function.
pub proof fn lemma_functions_view_push(functions: Seq<qbe::Function>, function: qbe::Function)
    ensures
        functions_view(functions.push(function)) == functions_view(functions).push(
            function_view(function),
        ),
{
    assert(functions_view(functions.push(function)) =~= functions_view(functions).push(
        function_view(function),
    ));
}

/// The same, for the items of a block.
pub proof fn lemma_items_view_push(items: Seq<qbe::BlockItem>, item: qbe::BlockItem)
    ensures
        items_view(items.push(item)) == items_view(items).push(item_view(item)),
{
    assert(items_view(items.push(item)) =~= items_view(items).push(item_view(item)));
}

} // verus!

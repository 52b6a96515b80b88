//! The block emitter: it walks a compressed program and builds the labelled
//! basic blocks of the function `main`.

use crate::brackets;
use crate::brackets::balance;
use crate::decimal::decimal_string;
use crate::lowering;
use crate::lowering::{
    lemma_run_shape, IrView, LabelKind, LoopView, CELL_STRIDE, POINTER_SIZE, RETURN_SUCCESS,
    TAPE_SIZE,
};
use crate::model::{
    block_view, blocks_view, function_view, instr_view, item_view, items_view,
    lemma_blocks_view_add, lemma_blocks_view_push, lemma_blocks_view_update,
    lemma_functions_view_push, lemma_items_view_push, module_view, typed_values_view, value_view,
    BlockView, ItemView,
};
use crate::qbe_specs::{clone_function, new_function};
use crate::token::{BrainfuckToken, CompressedBrainfuckToken};
use vstd::prelude::*;
use vstd::string::StringExecFns;

verus! {

/// Writes the label of the block of the given kind and number.
pub fn label_name(kind: LabelKind, number: u128) -> (name: String)
    ensures
        name@ == lowering::label(kind, number as nat),
{
    let prefix = match kind {
        LabelKind::Start => "start.",
        LabelKind::Body => "body.",
        LabelKind::WhileCond => "while_cond.",
        LabelKind::WhileBody => "while_body.",
        LabelKind::WhileJoin => "while_join.",
    };
    String::from_str(prefix).concat(decimal_string(number).as_str())
}

/// The temporary of the given number.
fn temporary(number: u128) -> (value: qbe::Value)
    ensures
        value_view(value) == lowering::temporary(number as nat),
{
    qbe::Value::Temporary(String::from_str(".").concat(decimal_string(number).as_str()))
}

/// The temporary that holds the address of the tape.
fn tape() -> (value: qbe::Value)
    ensures
        value_view(value) == lowering::tape(),
{
    qbe::Value::Temporary(String::from_str("stack"))
}

/// The temporary that holds the address of the pointer cell.
fn pointer() -> (value: qbe::Value)
    ensures
        value_view(value) == lowering::pointer(),
{
    qbe::Value::Temporary(String::from_str("stackptr"))
}

/// A block without items.
fn new_block(label: String) -> (block: qbe::Block)
    ensures
        block_view(block) == (BlockView { label: label@, items: Seq::empty() }),
{
    let block = qbe::Block { label, items: Vec::new() };
    assert(items_view(block.items@) =~= Seq::empty());
    block
}

/// Appends an instruction whose result goes to the value `target`.
fn push_assign_to(block: &mut qbe::Block, target: qbe::Value, ty: qbe::Type, instr: qbe::Instr)
    requires
        ty == qbe::Type::Word || ty == qbe::Type::Long,
    ensures
        block_view(*final(block)) == block_view(*old(block)).with_items(
            seq![ItemView::Assign(value_view(target), ty, instr_view(instr))],
        ),
{
    let ghost item = qbe::BlockItem::Statement(qbe::Statement::Assign(target, ty, instr));
    block.assign_instr(target, ty, instr);
    proof {
        lemma_items_view_push(old(block).items@, item);
        assert(items_view(old(block).items@).push(item_view(item)) =~= items_view(
            old(block).items@,
        ) + seq![item_view(item)]);
    }
}

/// Appends an instruction whose result goes to the temporary of the given
/// number.
fn push_assign(block: &mut qbe::Block, number: u128, ty: qbe::Type, instr: qbe::Instr)
    requires
        ty == qbe::Type::Word || ty == qbe::Type::Long,
    ensures
        block_view(*final(block)) == block_view(*old(block)).with_items(
            seq![lowering::assign(number as nat, ty, instr_view(instr))],
        ),
{
    push_assign_to(block, temporary(number), ty, instr);
}

/// Appends an instruction without a result.
fn push_volatile(block: &mut qbe::Block, instr: qbe::Instr)
    ensures
        block_view(*final(block)) == block_view(*old(block)).with_items(
            seq![ItemView::Volatile(instr_view(instr))],
        ),
{
    let ghost item = qbe::BlockItem::Statement(qbe::Statement::Volatile(instr));
    block.add_instr(instr);
    proof {
        lemma_items_view_push(old(block).items@, item);
        assert(items_view(old(block).items@).push(item_view(item)) =~= items_view(
            old(block).items@,
        ) + seq![item_view(item)]);
    }
}

/// Appends a move of the pointer.
fn emit_move(block: &mut qbe::Block, first: u128, forward: bool, count: u64)
    requires
        first + 2 <= u128::MAX,
    ensures
        block_view(*final(block)) == block_view(*old(block)).with_items(
            lowering::move_code(first as nat, forward, count),
        ),
{
    push_assign(block, first, qbe::Type::Word, qbe::Instr::Load(qbe::Type::Word, pointer()));
    let moved = if forward {
        qbe::Instr::Add(temporary(first), qbe::Value::Const(count))
    } else {
        qbe::Instr::Sub(temporary(first), qbe::Value::Const(count))
    };
    push_assign(block, first + 1, qbe::Type::Word, moved);
    push_volatile(block, qbe::Instr::Store(qbe::Type::Word, pointer(), temporary(first + 1)));
    assert(block_view(*block).items =~= block_view(*old(block)).items + lowering::move_code(
        first as nat,
        forward,
        count,
    ));
}

/// Appends the computation of the address of the current cell.
fn emit_cell_address(block: &mut qbe::Block, first: u128)
    requires
        first + 4 <= u128::MAX,
    ensures
        block_view(*final(block)) == block_view(*old(block)).with_items(
            lowering::cell_address_code(first as nat),
        ),
{
    push_assign(block, first, qbe::Type::Word, qbe::Instr::Load(qbe::Type::Word, pointer()));
    push_assign(block, first + 1, qbe::Type::Long, qbe::Instr::Extsw(temporary(first)));
    push_assign(
        block,
        first + 2,
        qbe::Type::Long,
        qbe::Instr::Mul(temporary(first + 1), qbe::Value::Const(CELL_STRIDE)),
    );
    push_assign(block, first + 3, qbe::Type::Long, qbe::Instr::Add(tape(), temporary(first + 2)));
    assert(block_view(*block).items =~= block_view(*old(block)).items
        + lowering::cell_address_code(first as nat));
}

/// Appends the load of the value of the current cell.
fn emit_cell_value(block: &mut qbe::Block, first: u128)
    requires
        first + 6 <= u128::MAX,
    ensures
        block_view(*final(block)) == block_view(*old(block)).with_items(
            lowering::cell_value_code(first as nat),
        ),
{
    emit_cell_address(block, first);
    push_assign(
        block,
        first + 4,
        qbe::Type::Word,
        qbe::Instr::Load(qbe::Type::SignedByte, temporary(first + 3)),
    );
    push_assign(block, first + 5, qbe::Type::Word, qbe::Instr::Extsb(temporary(first + 4)));
    assert(block_view(*block).items =~= block_view(*old(block)).items
        + lowering::cell_value_code(first as nat));
}

/// Appends a change of the current cell.
fn emit_update(block: &mut qbe::Block, first: u128, up: bool, count: u64)
    requires
        first + 7 <= u128::MAX,
    ensures
        block_view(*final(block)) == block_view(*old(block)).with_items(
            lowering::update_code(first as nat, up, count),
        ),
{
    emit_cell_value(block, first);
    let changed = if up {
        qbe::Instr::Add(temporary(first + 5), qbe::Value::Const(count))
    } else {
        qbe::Instr::Sub(temporary(first + 5), qbe::Value::Const(count))
    };
    push_assign(block, first + 6, qbe::Type::Word, changed);
    push_volatile(
        block,
        qbe::Instr::Store(qbe::Type::Byte, temporary(first + 3), temporary(first + 6)),
    );
    assert(block_view(*block).items =~= block_view(*old(block)).items + lowering::update_code(
        first as nat,
        up,
        count,
    ));
}

/// Appends the read of one byte into the current cell.
fn emit_input(block: &mut qbe::Block, first: u128)
    requires
        first + 6 <= u128::MAX,
    ensures
        block_view(*final(block)) == block_view(*old(block)).with_items(
            lowering::input_code(first as nat),
        ),
{
    let arguments: Vec<(qbe::Type, qbe::Value)> = Vec::new();
    assert(typed_values_view(arguments@) =~= Seq::empty());
    let read = qbe::Instr::Call(String::from_str("getchar"), arguments, None);
    push_assign(block, first, qbe::Type::Word, read);
    emit_cell_address(block, first + 1);
    push_volatile(
        block,
        qbe::Instr::Store(qbe::Type::Byte, temporary(first + 4), temporary(first)),
    );
    assert(block_view(*block).items =~= block_view(*old(block)).items + lowering::input_code(
        first as nat,
    ));
}

/// Appends `count` writes of the current cell.
fn emit_output(block: &mut qbe::Block, first: u128, count: u64)
    requires
        first + 7 <= u128::MAX,
    ensures
        block_view(*final(block)) == block_view(*old(block)).with_items(
            lowering::output_code(first as nat, count),
        ),
{
    emit_cell_value(block, first);
    let ghost loaded = block_view(*block);
    let mut written: u64 = 0;
    while written < count
        invariant
            written <= count,
            first + 7 <= u128::MAX,
            block_view(*block) == loaded.with_items(
                Seq::new(
                    written as nat,
                    |i: int| lowering::output_call((first + 6) as nat, (first + 5) as nat),
                ),
            ),
        decreases count - written,
    {
        let mut arguments: Vec<(qbe::Type, qbe::Value)> = Vec::new();
        arguments.push((qbe::Type::Word, temporary(first + 5)));
        assert(typed_values_view(arguments@) =~= seq![
            (qbe::Type::Word, lowering::temporary((first + 5) as nat)),
        ]);
        let write = qbe::Instr::Call(String::from_str("putchar"), arguments, None);
        push_assign(block, first + 6, qbe::Type::Word, write);
        written += 1;
        assert(block_view(*block).items =~= loaded.items + Seq::new(
            written as nat,
            |i: int| lowering::output_call((first + 6) as nat, (first + 5) as nat),
        ));
    }
    assert(block_view(*block).items =~= block_view(*old(block)).items + lowering::output_code(
        first as nat,
        count,
    ));
}

/// Appends the test of a loop, which ends the block.
fn emit_condition(block: &mut qbe::Block, first: u128, body: String, join: String)
    requires
        first + 7 <= u128::MAX,
    ensures
        block_view(*final(block)) == block_view(*old(block)).with_items(
            lowering::condition_code(first as nat, body@, join@),
        ),
{
    emit_cell_value(block, first);
    push_assign(
        block,
        first + 6,
        qbe::Type::Word,
        qbe::Instr::Cmp(
            qbe::Type::Word,
            qbe::Cmp::Ne,
            temporary(first + 5),
            qbe::Value::Const(0),
        ),
    );
    push_volatile(block, qbe::Instr::Jnz(temporary(first + 6), body, join));
    assert(block_view(*block).items =~= block_view(*old(block)).items
        + lowering::condition_code(first as nat, body@, join@));
}

/// The blocks under construction, and the number that the next block takes.
struct BlocksTracker {
    blocks: Vec<qbe::Block>,
    idx: u128,
}

impl BlocksTracker {
    /// No block yet; the first block takes the number 1.
    fn new() -> (tracker: Self)
        ensures
            tracker.blocks@.len() == 0,
            tracker.idx == 1,
    {
        BlocksTracker { blocks: Vec::new(), idx: 1 }
    }

    /// Appends a block, which takes the next number.
    fn add_block(&mut self, block: qbe::Block)
        requires
            old(self).idx < u128::MAX,
        ensures
            final(self).blocks@ == old(self).blocks@.push(block),
            final(self).idx == old(self).idx + 1,
    {
        self.blocks.push(block);
        self.idx += 1;
    }
}

/// A loop that is open: the numbers of its condition block and of its join
/// block.
struct LoopContext {
    cond: u128,
    join: u128,
}

/// The open loops, with their numbers as natural numbers.
spec fn loops_view(loops: Seq<LoopContext>) -> Seq<LoopView> {
    Seq::new(
        loops.len(),
        |i: int| LoopView { cond: loops[i].cond as nat, join: loops[i].join as nat },
    )
}

/// An emitter: the module that takes the finished function, the function
/// `main`, and the blocks under construction with the counters and the open
/// loops that go with them.
///
/// The numbers of blocks and temporaries are kept in 128 bits. A run of
/// commands takes at most seven temporaries and three block numbers, so that
/// no program that fits in memory exhausts them.
pub struct QBEIr {
    pub program: qbe::Module,
    main_func: qbe::Function,
    blocks: BlocksTracker,
    next_temp: u128,
    loops: Vec<LoopContext>,
}

impl View for QBEIr {
    type V = IrView;

    closed spec fn view(&self) -> IrView {
        IrView {
            program: module_view(self.program),
            function: function_view(self.main_func),
            blocks: blocks_view(self.blocks.blocks@),
            next_label: self.blocks.idx as nat,
            next_temp: self.next_temp as nat,
            loops: loops_view(self.loops@),
        }
    }
}

impl QBEIr {
    /// An emitter without a block, over an empty module.
    pub fn new() -> (ir: Self)
        ensures
            ir@ == IrView::initial(),
    {
        let arguments: Vec<(qbe::Type, qbe::Value)> = Vec::new();
        assert(typed_values_view(arguments@) =~= Seq::empty());
        let main_func = new_function(
            qbe::Linkage { exported: true, section: None, secflags: None, thread_local: false },
            String::from_str("main"),
            arguments,
            Some(qbe::Type::Word),
        );
        let ir = QBEIr {
            program: qbe::Module::new(),
            main_func,
            blocks: BlocksTracker::new(),
            next_temp: 0,
            loops: Vec::new(),
        };
        assert(ir@.blocks =~= Seq::empty());
        assert(ir@.loops =~= Seq::empty());
        assert(ir@.function.blocks =~= Seq::empty());
        assert(ir@.program.functions =~= Seq::empty());
        assert(ir@.program.types =~= Seq::empty());
        assert(ir@.program.data =~= Seq::empty());
        ir
    }

    /// The blocks under construction.
    pub fn blocks(&self) -> (blocks: &Vec<qbe::Block>)
        ensures
            blocks_view(blocks@) == self@.blocks,
    {
        &self.blocks.blocks
    }

    /// Hands out the module and drops the rest.
    pub fn into_program(self) -> (program: qbe::Module)
        ensures
            module_view(program) == self@.program,
    {
        self.program
    }

    /// The number of loops that are open.
    pub fn loop_depth(&self) -> (depth: usize)
        ensures
            depth == self@.loops.len(),
    {
        self.loops.len()
    }
}

impl QBEIr {
    /// Appends the two entry blocks. The start block allocates the tape and
    /// the pointer cell; the body block sets the pointer to the first cell
    /// and becomes the current block.
    pub fn init_body(&mut self) -> (ir: &mut Self)
        requires
            old(self)@.next_label + 2 <= u128::MAX,
        ensures
            ir@ == old(self)@.with_entry(),
            *final(self) == *final(ir),
    {
        let mut startblock = new_block(label_name(LabelKind::Start, self.blocks.idx));
        push_assign_to(&mut startblock, tape(), qbe::Type::Long, qbe::Instr::Alloc4(TAPE_SIZE));
        push_assign_to(
            &mut startblock,
            pointer(),
            qbe::Type::Long,
            qbe::Instr::Alloc4(POINTER_SIZE),
        );
        assert(block_view(startblock).items =~= lowering::start_code());
        let ghost blocks = self.blocks.blocks@;
        self.blocks.add_block(startblock);

        let mut mainbody = new_block(label_name(LabelKind::Body, self.blocks.idx));
        push_volatile(
            &mut mainbody,
            qbe::Instr::Store(qbe::Type::Word, pointer(), qbe::Value::Const(0)),
        );
        assert(block_view(mainbody).items =~= lowering::body_code());
        self.blocks.add_block(mainbody);
        proof {
            lemma_blocks_view_push(blocks, startblock);
            lemma_blocks_view_push(blocks.push(startblock), mainbody);
        }
        self
    }

    /// Emits one run of commands into the current block, or opens or closes
    /// a loop around it.
    pub fn emit_unit(&mut self, unit: &CompressedBrainfuckToken)
        requires
            old(self)@.blocks.len() > 0,
            unit.token == BrainfuckToken::LoopEnd ==> old(self)@.loops.len() > 0,
            old(self)@.next_temp + 7 <= u128::MAX,
            old(self)@.next_label + 3 <= u128::MAX,
        ensures
            final(self)@ == old(self)@.step(*unit),
    {
        let current: usize = self.blocks.blocks.len() - 1;
        let first: u128 = self.next_temp;
        let ghost blocks = self.blocks.blocks@;
        let ghost loops = self.loops@;
        match unit.token {
            BrainfuckToken::Next => {
                emit_move(&mut self.blocks.blocks[current], first, true, unit.num);
                self.next_temp += 2;
            },
            BrainfuckToken::Prev => {
                emit_move(&mut self.blocks.blocks[current], first, false, unit.num);
                self.next_temp += 2;
            },
            BrainfuckToken::Add => {
                emit_update(&mut self.blocks.blocks[current], first, true, unit.num);
                self.next_temp += 7;
            },
            BrainfuckToken::Sub => {
                emit_update(&mut self.blocks.blocks[current], first, false, unit.num);
                self.next_temp += 7;
            },
            BrainfuckToken::Input => {
                emit_input(&mut self.blocks.blocks[current], first);
                self.next_temp += 6;
            },
            BrainfuckToken::Out => {
                emit_output(&mut self.blocks.blocks[current], first, unit.num);
                self.next_temp += 7;
            },
            BrainfuckToken::LoopStart => {
                let number: u128 = self.blocks.idx;
                let mut condblock = new_block(label_name(LabelKind::WhileCond, number));
                emit_condition(
                    &mut condblock,
                    first,
                    label_name(LabelKind::WhileBody, number + 1),
                    label_name(LabelKind::WhileJoin, number + 2),
                );
                assert(block_view(condblock).items =~= lowering::condition_code(
                    first as nat,
                    lowering::label(LabelKind::WhileBody, (number + 1) as nat),
                    lowering::label(LabelKind::WhileJoin, (number + 2) as nat),
                ));
                self.blocks.add_block(condblock);
                let newblock = new_block(label_name(LabelKind::WhileBody, self.blocks.idx));
                self.blocks.add_block(newblock);
                // The third number is kept for the join block, which the end
                // of the loop appends.
                self.blocks.idx += 1;
                self.loops.push(LoopContext { cond: number, join: number + 2 });
                self.next_temp += 7;
                proof {
                    lemma_blocks_view_push(blocks, condblock);
                    lemma_blocks_view_push(blocks.push(condblock), newblock);
                    assert(loops_view(self.loops@) =~= loops_view(loops).push(
                        LoopView { cond: number as nat, join: (number + 2) as nat },
                    ));
                }
            },
            BrainfuckToken::LoopEnd => {
                assert(loops_view(loops).len() == loops.len());
                let innermost = self.loops.pop().unwrap();
                push_volatile(
                    &mut self.blocks.blocks[current],
                    qbe::Instr::Jmp(label_name(LabelKind::WhileCond, innermost.cond)),
                );
                let ghost jumped = self.blocks.blocks@;
                let joinblock = new_block(label_name(LabelKind::WhileJoin, innermost.join));
                self.blocks.blocks.push(joinblock);
                proof {
                    lemma_blocks_view_update(blocks, current as int, jumped[current as int]);
                    lemma_blocks_view_push(jumped, joinblock);
                    assert(loops_view(self.loops@) =~= loops_view(loops).drop_last());
                }
            },
            BrainfuckToken::Invalid => {},
        }
        proof {
            // What went into the current block shows in the view of the blocks.
            lemma_blocks_view_update(blocks, current as int, self.blocks.blocks@[current as int]);
        }
    }
}

impl QBEIr {
    /// Emits a whole program: every run in its order, from the current block
    /// on.
    ///
    /// There must be a current block, no `LoopEnd` may come where no loop is
    /// open, and the counters must have room for the longest program that a
    /// vector holds.
    pub fn token_array_to_qbe_ir(
        &mut self,
        compressed_tokens: Vec<CompressedBrainfuckToken>,
    ) -> (ir: &mut Self)
        requires
            old(self)@.blocks.len() > 0,
            brackets::loop_ends_matched(old(self)@.loops.len(), compressed_tokens@),
            old(self)@.next_temp + 7 * usize::MAX <= u128::MAX,
            old(self)@.next_label + 3 * usize::MAX <= u128::MAX,
        ensures
            ir@ == old(self)@.run(compressed_tokens@),
            ir@.blocks.len() >= old(self)@.blocks.len(),
            ir@.loops.len() == old(self)@.loops.len() + balance(
                compressed_tokens@,
                0,
                compressed_tokens@.len() as int,
            ),
            ir@.next_temp <= old(self)@.next_temp + 7 * usize::MAX,
            ir@.next_label <= old(self)@.next_label + 3 * usize::MAX,
            *final(self) == *final(ir),
    {
        proof {
            lemma_run_shape(old(self)@, compressed_tokens@);
        }
        let length: usize = compressed_tokens.len();
        let mut index: usize = 0;
        while index < length
            invariant
                index <= length == compressed_tokens@.len(),
                self@ == old(self)@.run(compressed_tokens@.take(index as int)),
                self@.blocks.len() > 0,
                self@.loops.len() == old(self)@.loops.len() + balance(
                    compressed_tokens@,
                    0,
                    index as int,
                ),
                self@.next_temp <= old(self)@.next_temp + 7 * index,
                self@.next_label <= old(self)@.next_label + 3 * index,
                brackets::loop_ends_matched(old(self)@.loops.len(), compressed_tokens@),
                old(self)@.next_temp + 7 * usize::MAX <= u128::MAX,
                old(self)@.next_label + 3 * usize::MAX <= u128::MAX,
            decreases compressed_tokens@.len() - index,
        {
            proof {
                assert(compressed_tokens@.take(index + 1).drop_last() == compressed_tokens@.take(
                    index as int,
                ));
                assert(balance(compressed_tokens@, 0, index + 1) == balance(
                    compressed_tokens@,
                    0,
                    index as int,
                ) + compressed_tokens@[index as int].token.depth_change());
            }
            self.emit_unit(&compressed_tokens[index]);
            index += 1;
        }
        assert(compressed_tokens@.take(index as int) == compressed_tokens@);
        self
    }

    /// Closes the program: the current block ends in the return, the blocks
    /// move into the function, and the module gets a copy of the function.
    /// No loop may be open.
    pub fn close_prog(&mut self)
        requires
            old(self)@.blocks.len() > 0,
            old(self)@.loops.len() == 0,
        ensures
            final(self)@ == old(self)@.closed(),
    {
        let current: usize = self.blocks.blocks.len() - 1;
        let ghost blocks = self.blocks.blocks@;
        let ghost function_blocks = self.main_func.blocks@;
        let ghost functions = self.program.functions@;
        push_volatile(
            &mut self.blocks.blocks[current],
            qbe::Instr::Ret(Some(qbe::Value::Const(RETURN_SUCCESS))),
        );
        let ghost returning = self.blocks.blocks@;
        self.main_func.blocks.append(&mut self.blocks.blocks);
        let copy = clone_function(&self.main_func);
        self.program.add_function(copy);
        proof {
            lemma_blocks_view_update(blocks, current as int, returning[current as int]);
            lemma_blocks_view_add(function_blocks, returning);
            lemma_functions_view_push(functions, copy);
            assert(self@.blocks =~= Seq::empty());
        }
    }
}

/// Whether no `LoopEnd` of a program comes where no loop is open, with
/// `open_loops` loops open at its start.
pub fn loop_ends_matched(open_loops: usize, units: &Vec<CompressedBrainfuckToken>) -> (matched:
    bool)
    ensures
        matched == brackets::loop_ends_matched(open_loops as nat, units@),
{
    let mut depth: u128 = open_loops as u128;
    let mut index: usize = 0;
    while index < units.len()
        invariant
            index <= units@.len(),
            depth == open_loops + balance(units@, 0, index as int),
            depth <= open_loops + index,
            forall|k: int| 0 <= k <= index ==> open_loops + #[trigger] balance(units@, 0, k) >= 0,
        decreases units@.len() - index,
    {
        match units[index].token {
            BrainfuckToken::LoopStart => {
                depth += 1;
            },
            BrainfuckToken::LoopEnd => {
                if depth == 0 {
                    assert(open_loops + balance(units@, 0, index + 1) < 0);
                    return false;
                }
                depth -= 1;
            },
            _ => {},
        }
        index += 1;
    }
    true
}

} // verus!

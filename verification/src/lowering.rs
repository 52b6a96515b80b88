//! What the emitter makes of a program, stated over views: the names it
//! gives, the instructions that stand for each kind of command, and the
//! blocks that a sequence of commands leaves behind.

use crate::brackets::{balance, lemma_balance_of_prefix, loop_ends_matched};
use crate::decimal::decimal;
use crate::model::{
    BlockView, FunctionView, InstrView, ItemView, LinkageView, ModuleView, ValueView,
};
use crate::token::{BrainfuckToken, CompressedBrainfuckToken};
use vstd::prelude::*;

verus! {

/// The size of the tape in bytes.
pub const TAPE_SIZE: u32 = 30000;

/// The size in bytes of the cell that holds the pointer into the tape.
pub const POINTER_SIZE: u32 = 4;

/// The value that the compiled program returns.
pub const RETURN_SUCCESS: u64 = 0;

/// The factor by which the pointer is scaled to the offset of a cell.
pub const CELL_STRIDE: u64 = 1;

/// The kinds of blocks. Together with a number, a kind names a block.
#[derive(Debug, PartialEq, Eq, Clone, Copy, Structural)]
pub enum LabelKind {
    /// The block that allocates the tape and the pointer.
    Start,
    /// The block that the program itself begins in.
    Body,
    /// The block that tests the cell before each round of a loop.
    WhileCond,
    /// The block that the body of a loop begins in.
    WhileBody,
    /// The block in which the program goes on after a loop.
    WhileJoin,
}

impl LabelKind {
    /// What the labels of a kind begin with.
    pub open spec fn prefix(self) -> Seq<char> {
        match self {
            LabelKind::Start => "start."@,
            LabelKind::Body => "body."@,
            LabelKind::WhileCond => "while_cond."@,
            LabelKind::WhileBody => "while_body."@,
            LabelKind::WhileJoin => "while_join."@,
        }
    }
}

/// The label of the block of the given kind and number.
pub open spec fn label(kind: LabelKind, number: nat) -> Seq<char> {
    kind.prefix() + decimal(number)
}

/// The temporary of the given number.
pub open spec fn temporary(number: nat) -> ValueView {
    ValueView::Temporary("."@ + decimal(number))
}

/// The temporary that holds the address of the tape.
pub open spec fn tape() -> ValueView {
    ValueView::Temporary("stack"@)
}

/// The temporary that holds the address of the pointer cell.
pub open spec fn pointer() -> ValueView {
    ValueView::Temporary("stackptr"@)
}

/// The statement that assigns the result of an instruction to the temporary
/// of the given number.
pub open spec fn assign(number: nat, ty: qbe::Type, instr: InstrView) -> ItemView {
    ItemView::Assign(temporary(number), ty, instr)
}

/// Allocation of the tape and of the pointer cell.
pub open spec fn start_code() -> Seq<ItemView> {
    seq![
        ItemView::Assign(tape(), qbe::Type::Long, InstrView::Alloc4(TAPE_SIZE)),
        ItemView::Assign(pointer(), qbe::Type::Long, InstrView::Alloc4(POINTER_SIZE)),
    ]
}

/// The pointer is set to the first cell.
pub open spec fn body_code() -> Seq<ItemView> {
    seq![
        ItemView::Volatile(InstrView::Store(qbe::Type::Word, pointer(), ValueView::Const(0))),
    ]
}

/// The program returns.
pub open spec fn return_code() -> Seq<ItemView> {
    seq![ItemView::Volatile(InstrView::Ret(Some(ValueView::Const(RETURN_SUCCESS))))]
}

/// A move of the pointer by `count` cells, to the right if `forward`: the
/// pointer is loaded, changed and stored. Takes two temporaries from `first`.
pub open spec fn move_code(first: nat, forward: bool, count: u64) -> Seq<ItemView> {
    seq![
        assign(first, qbe::Type::Word, InstrView::Load(qbe::Type::Word, pointer())),
        assign(
            first + 1,
            qbe::Type::Word,
            if forward {
                InstrView::Add(temporary(first), ValueView::Const(count))
            } else {
                InstrView::Sub(temporary(first), ValueView::Const(count))
            },
        ),
        ItemView::Volatile(InstrView::Store(qbe::Type::Word, pointer(), temporary(first + 1))),
    ]
}

/// The address of the current cell: the pointer is loaded, widened, scaled
/// and added to the address of the tape. Takes four temporaries from
/// `first`; the last of them, `first + 3`, holds the address.
pub open spec fn cell_address_code(first: nat) -> Seq<ItemView> {
    seq![
        assign(first, qbe::Type::Word, InstrView::Load(qbe::Type::Word, pointer())),
        assign(first + 1, qbe::Type::Long, InstrView::Extsw(temporary(first))),
        assign(
            first + 2,
            qbe::Type::Long,
            InstrView::Mul(temporary(first + 1), ValueView::Const(CELL_STRIDE)),
        ),
        assign(first + 3, qbe::Type::Long, InstrView::Add(tape(), temporary(first + 2))),
    ]
}

/// The value of the current cell: its address, then the byte there, loaded
/// and widened. Takes six temporaries from `first`; `first + 3` holds the
/// address and `first + 5` the value.
pub open spec fn cell_value_code(first: nat) -> Seq<ItemView> {
    cell_address_code(first) + seq![
        assign(
            first + 4,
            qbe::Type::Word,
            InstrView::Load(qbe::Type::SignedByte, temporary(first + 3)),
        ),
        assign(first + 5, qbe::Type::Word, InstrView::Extsb(temporary(first + 4))),
    ]
}

/// A change of the current cell by `count`, upwards if `up`: the value is
/// loaded, changed and stored as a byte. Takes seven temporaries from
/// `first`.
pub open spec fn update_code(first: nat, up: bool, count: u64) -> Seq<ItemView> {
    cell_value_code(first) + seq![
        assign(
            first + 6,
            qbe::Type::Word,
            if up {
                InstrView::Add(temporary(first + 5), ValueView::Const(count))
            } else {
                InstrView::Sub(temporary(first + 5), ValueView::Const(count))
            },
        ),
        ItemView::Volatile(
            InstrView::Store(qbe::Type::Byte, temporary(first + 3), temporary(first + 6)),
        ),
    ]
}

/// One byte is read and stored in the current cell. Takes six temporaries
/// from `first`, of which the last stays unused.
pub open spec fn input_code(first: nat) -> Seq<ItemView> {
    seq![
        assign(first, qbe::Type::Word, InstrView::Call("getchar"@, Seq::empty(), None)),
    ] + cell_address_code(first + 1) + seq![
        ItemView::Volatile(
            InstrView::Store(qbe::Type::Byte, temporary(first + 4), temporary(first)),
        ),
    ]
}

/// The call that writes the value held in the temporary `value`.
pub open spec fn output_call(result: nat, value: nat) -> ItemView {
    assign(
        result,
        qbe::Type::Word,
        InstrView::Call("putchar"@, seq![(qbe::Type::Word, temporary(value))], None),
    )
}

/// The current cell is written `count` times: its value is loaded once, and
/// each call is handed that value. Takes seven temporaries from `first`.
pub open spec fn output_code(first: nat, count: u64) -> Seq<ItemView> {
    cell_value_code(first) + Seq::new(count as nat, |i: int| output_call(first + 6, first + 5))
}

/// The test of a loop: the value of the current cell is compared with zero,
/// and the block ends in a jump to `body` if they differ and to `join` if
/// not. Takes seven temporaries from `first`.
pub open spec fn condition_code(first: nat, body: Seq<char>, join: Seq<char>) -> Seq<ItemView> {
    cell_value_code(first) + seq![
        assign(
            first + 6,
            qbe::Type::Word,
            InstrView::Cmp(
                qbe::Type::Word,
                qbe::Cmp::Ne,
                temporary(first + 5),
                ValueView::Const(0),
            ),
        ),
        ItemView::Volatile(InstrView::Jnz(temporary(first + 6), body, join)),
    ]
}

/// A loop that is open: the numbers of its condition block, to which its end
/// jumps back, and of its join block, which its end appends.
pub struct LoopView {
    pub cond: nat,
    pub join: nat,
}

/// The state of an emitter.
pub struct IrView {
    /// The module that takes the function when it is finished.
    pub program: ModuleView,
    /// The function that the blocks are for.
    pub function: FunctionView,
    /// The blocks made so far. The last of them is the current block.
    pub blocks: Seq<BlockView>,
    /// The number that the next block takes.
    pub next_label: nat,
    /// The number that the next temporary takes.
    pub next_temp: nat,
    /// The loops that are open, the innermost last.
    pub loops: Seq<LoopView>,
}

/// The function `main`: exported, without arguments, returning a word.
pub open spec fn main_function() -> FunctionView {
    FunctionView {
        linkage: LinkageView {
            exported: true,
            section: None,
            secflags: None,
            thread_local: false,
        },
        name: "main"@,
        arguments: Seq::empty(),
        return_ty: Some(qbe::Type::Word),
        blocks: Seq::empty(),
    }
}

impl IrView {
    /// The state of a new emitter: an empty module, `main` without a block,
    /// the first block number is 1 and the first temporary number 0.
    pub open spec fn initial() -> IrView {
        IrView {
            program: ModuleView {
                functions: Seq::empty(),
                types: Seq::empty(),
                data: Seq::empty(),
            },
            function: main_function(),
            blocks: Seq::empty(),
            next_label: 1,
            next_temp: 0,
            loops: Seq::empty(),
        }
    }

    /// The state with the two entry blocks appended: the start block, which
    /// allocates, and the body block, which becomes the current block.
    pub open spec fn with_entry(self) -> IrView {
        IrView {
            blocks: self.blocks.push(
                BlockView { label: label(LabelKind::Start, self.next_label), items: start_code() },
            ).push(
                BlockView {
                    label: label(LabelKind::Body, self.next_label + 1),
                    items: body_code(),
                },
            ),
            next_label: self.next_label + 2,
            ..self
        }
    }

    /// The state with `items` appended to the current block.
    pub open spec fn with_items(self, items: Seq<ItemView>) -> IrView
        recommends
            self.blocks.len() > 0,
    {
        IrView {
            blocks: self.blocks.update(
                self.blocks.len() - 1,
                self.blocks.last().with_items(items),
            ),
            ..self
        }
    }

    /// The state with `count` temporaries taken.
    pub open spec fn with_temporaries(self, count: nat) -> IrView {
        IrView { next_temp: self.next_temp + count, ..self }
    }

    /// The state after a `LoopStart`: a condition block and an empty body
    /// block are appended under the next two numbers, the third number is
    /// kept for the join block, the loop is open, and the body block is the
    /// current block. The block that was current gets nothing: it runs on
    /// into the condition block.
    pub open spec fn with_loop_opened(self) -> IrView {
        let number = self.next_label;
        IrView {
            blocks: self.blocks.push(
                BlockView {
                    label: label(LabelKind::WhileCond, number),
                    items: condition_code(
                        self.next_temp,
                        label(LabelKind::WhileBody, number + 1),
                        label(LabelKind::WhileJoin, number + 2),
                    ),
                },
            ).push(
                BlockView { label: label(LabelKind::WhileBody, number + 1), items: Seq::empty() },
            ),
            next_label: number + 3,
            next_temp: self.next_temp + 7,
            loops: self.loops.push(LoopView { cond: number, join: number + 2 }),
            ..self
        }
    }

    /// The state after a `LoopEnd`: the current block ends in a jump back to
    /// the condition block of the innermost open loop, the join block of that
    /// loop is appended, empty, and becomes the current block, and the loop
    /// is no longer open.
    pub open spec fn with_loop_closed(self) -> IrView
        recommends
            self.blocks.len() > 0,
            self.loops.len() > 0,
    {
        let innermost = self.loops.last();
        let jump = seq![
            ItemView::Volatile(InstrView::Jmp(label(LabelKind::WhileCond, innermost.cond))),
        ];
        IrView {
            blocks: self.with_items(jump).blocks.push(
                BlockView {
                    label: label(LabelKind::WhileJoin, innermost.join),
                    items: Seq::empty(),
                },
            ),
            loops: self.loops.drop_last(),
            ..self
        }
    }

    /// The state after one run of commands.
    pub open spec fn step(self, unit: CompressedBrainfuckToken) -> IrView
        recommends
            self.blocks.len() > 0,
            unit.token == BrainfuckToken::LoopEnd ==> self.loops.len() > 0,
    {
        match unit.token {
            BrainfuckToken::Next => self.with_items(
                move_code(self.next_temp, true, unit.num),
            ).with_temporaries(2),
            BrainfuckToken::Prev => self.with_items(
                move_code(self.next_temp, false, unit.num),
            ).with_temporaries(2),
            BrainfuckToken::Add => self.with_items(
                update_code(self.next_temp, true, unit.num),
            ).with_temporaries(7),
            BrainfuckToken::Sub => self.with_items(
                update_code(self.next_temp, false, unit.num),
            ).with_temporaries(7),
            BrainfuckToken::Input => self.with_items(input_code(self.next_temp)).with_temporaries(
                6,
            ),
            BrainfuckToken::Out => self.with_items(
                output_code(self.next_temp, unit.num),
            ).with_temporaries(7),
            BrainfuckToken::LoopStart => self.with_loop_opened(),
            BrainfuckToken::LoopEnd => self.with_loop_closed(),
            BrainfuckToken::Invalid => self,
        }
    }

    /// The state after a sequence of runs, taken from left to right.
    pub open spec fn run(self, units: Seq<CompressedBrainfuckToken>) -> IrView
        decreases units.len(),
    {
        if units.len() == 0 {
            self
        } else {
            self.run(units.drop_last()).step(units.last())
        }
    }

    /// The function with the blocks moved into it, the current block ending
    /// in the return.
    pub open spec fn finished_function(self) -> FunctionView
        recommends
            self.blocks.len() > 0,
    {
        FunctionView {
            blocks: self.function.blocks + self.with_items(return_code()).blocks,
            ..self.function
        }
    }

    /// The state after the program is closed: the blocks have moved into the
    /// function, and the module has got a copy of the function.
    pub open spec fn closed(self) -> IrView
        recommends
            self.blocks.len() > 0,
    {
        IrView {
            program: ModuleView {
                functions: self.program.functions.push(self.finished_function()),
                ..self.program
            },
            function: self.finished_function(),
            blocks: Seq::empty(),
            ..self
        }
    }
}

/// A program in which no `LoopEnd` comes where no loop is open changes the
/// number of open loops by the depth that it gains. It loses no block, gives
/// no number back, takes at most three block numbers and seven temporaries
/// for each run, and leaves the module and the function as they are.
pub proof fn lemma_run_shape(state: IrView, units: Seq<CompressedBrainfuckToken>)
    requires
        loop_ends_matched(state.loops.len(), units),
    ensures
        state.run(units).loops.len() == state.loops.len() + balance(units, 0, units.len() as int),
        state.run(units).blocks.len() >= state.blocks.len(),
        state.next_label <= state.run(units).next_label <= state.next_label + 3 * units.len(),
        state.next_temp <= state.run(units).next_temp <= state.next_temp + 7 * units.len(),
        state.run(units).program == state.program,
        state.run(units).function == state.function,
    decreases units.len(),
{
    if units.len() > 0 {
        let front = units.drop_last();
        assert forall|k: int| 0 <= k <= front.len() implies state.loops.len() + #[trigger] balance(
            front,
            0,
            k,
        ) >= 0 by {
            lemma_balance_of_prefix(units, units.len() - 1, 0, k);
            assert(state.loops.len() + balance(units, 0, k) >= 0);
        }
        lemma_run_shape(state, front);
        lemma_balance_of_prefix(units, units.len() - 1, 0, units.len() - 1);
        assert(state.loops.len() + balance(units, 0, units.len() as int) >= 0);
    }
}

} // verus!

//! The labels and jumps of the emitted blocks: every label is given once, and
//! every jump leads to a block.

use crate::brackets::{balance, lemma_balance_of_prefix, loop_ends_matched};
use crate::decimal::{decimal, lemma_decimal_injective, lemma_decimal_value};
use crate::lowering::{
    body_code, cell_address_code, cell_value_code, input_code, label, lemma_run_shape, move_code,
    output_code, return_code, start_code, update_code, IrView, LabelKind, LoopView,
};
use crate::model::{BlockView, InstrView, ItemView};
use crate::token::{BrainfuckToken, CompressedBrainfuckToken};
use vstd::prelude::*;

verus! {

/// A label names one kind and one number.
pub proof fn lemma_label_injective(kind: LabelKind, number: nat, other_kind: LabelKind, other: nat)
    requires
        label(kind, number) == label(other_kind, other),
    ensures
        kind == other_kind,
        number == other,
{
    reveal_strlit("start.");
    reveal_strlit("body.");
    reveal_strlit("while_cond.");
    reveal_strlit("while_body.");
    reveal_strlit("while_join.");
    lemma_decimal_value(number);
    lemma_decimal_value(other);
    let name = label(kind, number);
    // The kinds differ in the first character, the kinds of a loop in the
    // seventh.
    assert(name[0] == kind.prefix()[0]);
    assert(name[0] == other_kind.prefix()[0]);
    if kind.prefix().len() > 6 && other_kind.prefix().len() > 6 {
        assert(name[6] == kind.prefix()[6]);
        assert(name[6] == other_kind.prefix()[6]);
    }
    assert(kind == other_kind);
    assert(decimal(number) =~= name.skip(kind.prefix().len() as int));
    assert(decimal(other) =~= name.skip(kind.prefix().len() as int));
    lemma_decimal_injective(number, other);
}

/// The labels that an instruction jumps to.
pub open spec fn instr_targets(instr: InstrView) -> Seq<Seq<char>> {
    match instr {
        InstrView::Jnz(_, if_nonzero, if_zero) => seq![if_nonzero, if_zero],
        InstrView::Jmp(target) => seq![target],
        _ => Seq::empty(),
    }
}

/// The labels that an item of a block jumps to.
pub open spec fn item_targets(item: ItemView) -> Seq<Seq<char>> {
    match item {
        ItemView::Assign(_, _, instr) => instr_targets(instr),
        ItemView::Volatile(instr) => instr_targets(instr),
        ItemView::Comment(_) => Seq::empty(),
    }
}

/// Whether one of the blocks has the label `name`.
pub open spec fn has_block(blocks: Seq<BlockView>, name: Seq<char>) -> bool {
    exists|i: int| 0 <= i < blocks.len() && (#[trigger] blocks[i]).label == name
}

/// No two blocks have one label.
pub open spec fn labels_distinct(blocks: Seq<BlockView>) -> bool {
    forall|i: int, j: int|
        #![trigger blocks[i], blocks[j]]
        0 <= i < j < blocks.len() ==> blocks[i].label != blocks[j].label
}

/// Every jump in the blocks leads to one of the blocks, or to a label in
/// `pending`.
pub open spec fn jumps_lead_to(blocks: Seq<BlockView>, pending: Seq<Seq<char>>) -> bool {
    forall|i: int, p: int, t: int|
        0 <= i < blocks.len() && 0 <= p < blocks[i].items.len() && 0 <= t < item_targets(
            blocks[i].items[p],
        ).len() ==> {
            let target = #[trigger] item_targets(blocks[i].items[p])[t];
            has_block(blocks, target) || pending.contains(target)
        }
}

/// None of the items jumps.
pub open spec fn is_straight(items: Seq<ItemView>) -> bool {
    forall|p: int| 0 <= p < items.len() ==> (#[trigger] item_targets(items[p])).len() == 0
}

/// Whether a name is the label of some kind with a number below `bound`.
pub open spec fn is_numbered_below(name: Seq<char>, bound: nat) -> bool {
    exists|kind: LabelKind, number: nat| number < bound && name == #[trigger] label(kind, number)
}

/// The labels of the join blocks that the open loops still have to get.
pub open spec fn pending_joins(loops: Seq<LoopView>) -> Seq<Seq<char>> {
    Seq::new(loops.len(), |l: int| label(LabelKind::WhileJoin, loops[l].join))
}

/// What holds of the labels in every state that an emitter reaches from its
/// entry blocks: every block has a number of its own below the next number;
/// the join block of an open loop is not there yet, has a number of its own
/// below the next number, and its condition block is there; and every jump
/// leads to a block that is there or to the join block of an open loop.
pub open spec fn is_sound(state: IrView) -> bool {
    &&& forall|i: int|
        0 <= i < state.blocks.len() ==> is_numbered_below(
            (#[trigger] state.blocks[i]).label,
            state.next_label,
        )
    &&& labels_distinct(state.blocks)
    &&& forall|l: int|
        0 <= l < state.loops.len() ==> {
            let open = #[trigger] state.loops[l];
            &&& open.join < state.next_label
            &&& !has_block(state.blocks, label(LabelKind::WhileJoin, open.join))
            &&& has_block(state.blocks, label(LabelKind::WhileCond, open.cond))
        }
    &&& forall|l: int, m: int|
        #![trigger state.loops[l], state.loops[m]]
        0 <= l < m < state.loops.len() ==> state.loops[l].join != state.loops[m].join
    &&& jumps_lead_to(state.blocks, pending_joins(state.loops))
}

proof fn lemma_has_block_push(blocks: Seq<BlockView>, block: BlockView, name: Seq<char>)
    ensures
        has_block(blocks.push(block), name) <==> has_block(blocks, name) || block.label == name,
{
    let longer = blocks.push(block);
    if has_block(blocks, name) {
        let i = choose|i: int| 0 <= i < blocks.len() && (#[trigger] blocks[i]).label == name;
        assert(longer[i].label == name);
    }
    if block.label == name {
        assert(longer[blocks.len() as int].label == name);
    }
    if has_block(longer, name) {
        let i = choose|i: int| 0 <= i < longer.len() && (#[trigger] longer[i]).label == name;
        if i < blocks.len() {
            assert(blocks[i].label == name);
        }
    }
}

proof fn lemma_has_block_update(
    blocks: Seq<BlockView>,
    index: int,
    block: BlockView,
    name: Seq<char>,
)
    requires
        0 <= index < blocks.len(),
        block.label == blocks[index].label,
    ensures
        has_block(blocks.update(index, block), name) <==> has_block(blocks, name),
{
    let updated = blocks.update(index, block);
    if has_block(blocks, name) {
        let i = choose|i: int| 0 <= i < blocks.len() && (#[trigger] blocks[i]).label == name;
        assert(updated[i].label == name);
    }
    if has_block(updated, name) {
        let i = choose|i: int| 0 <= i < updated.len() && (#[trigger] updated[i]).label == name;
        assert(blocks[i].label == name);
    }
}

/// Code that moves the pointer, changes a cell, reads or writes does not
/// jump.
pub proof fn lemma_commands_are_straight(first: nat, flag: bool, count: u64)
    ensures
        is_straight(start_code()),
        is_straight(body_code()),
        is_straight(return_code()),
        is_straight(move_code(first, flag, count)),
        is_straight(cell_address_code(first)),
        is_straight(cell_value_code(first)),
        is_straight(update_code(first, flag, count)),
        is_straight(input_code(first)),
        is_straight(output_code(first, count)),
{
}

proof fn lemma_pending_grows(loops: Seq<LoopView>, open: LoopView, name: Seq<char>)
    requires
        pending_joins(loops).contains(name) || name == label(LabelKind::WhileJoin, open.join),
    ensures
        pending_joins(loops.push(open)).contains(name),
{
    let longer = pending_joins(loops.push(open));
    if pending_joins(loops).contains(name) {
        let l = choose|l: int| 0 <= l < loops.len() && pending_joins(loops)[l] == name;
        assert(longer[l] == name);
    } else {
        assert(longer[loops.len() as int] == name);
    }
}

proof fn lemma_pending_shrinks(loops: Seq<LoopView>, name: Seq<char>)
    requires
        loops.len() > 0,
        pending_joins(loops).contains(name),
    ensures
        pending_joins(loops.drop_last()).contains(name) || name == label(
            LabelKind::WhileJoin,
            loops.last().join,
        ),
{
    let l = choose|l: int| 0 <= l < loops.len() && pending_joins(loops)[l] == name;
    if l < loops.len() - 1 {
        assert(pending_joins(loops.drop_last())[l] == name);
    }
}

/// A block with a number below the next number does not have the label of a
/// number that is not below it.
proof fn lemma_fresh_number_is_unused(state: IrView, kind: LabelKind, number: nat)
    requires
        is_sound(state),
        number >= state.next_label,
    ensures
        !has_block(state.blocks, label(kind, number)),
{
    if has_block(state.blocks, label(kind, number)) {
        let i = choose|i: int|
            0 <= i < state.blocks.len() && (#[trigger] state.blocks[i]).label == label(
                kind,
                number,
            );
        let (used_kind, used): (LabelKind, nat) = choose|used_kind: LabelKind, used: nat|
            used < state.next_label && state.blocks[i].label == #[trigger] label(used_kind, used);
        lemma_label_injective(used_kind, used, kind, number);
    }
}

proof fn lemma_sound_with_items(state: IrView, items: Seq<ItemView>)
    requires
        is_sound(state),
        state.blocks.len() > 0,
        is_straight(items),
    ensures
        is_sound(state.with_items(items)),
{
    let blocks = state.blocks;
    let last = blocks.len() - 1;
    let next = state.with_items(items);
    let pending = pending_joins(state.loops);
    assert forall|i: int| 0 <= i < next.blocks.len() implies is_numbered_below(
        (#[trigger] next.blocks[i]).label,
        next.next_label,
    ) by {
        assert(next.blocks[i].label == blocks[i].label);
    }
    assert forall|i: int, j: int|
        #![trigger next.blocks[i], next.blocks[j]]
        0 <= i < j < next.blocks.len() implies next.blocks[i].label != next.blocks[j].label by {
        assert(next.blocks[i].label == blocks[i].label);
        assert(next.blocks[j].label == blocks[j].label);
    }
    assert forall|l: int| 0 <= l < next.loops.len() implies {
        let open = #[trigger] next.loops[l];
        &&& open.join < next.next_label
        &&& !has_block(next.blocks, label(LabelKind::WhileJoin, open.join))
        &&& has_block(next.blocks, label(LabelKind::WhileCond, open.cond))
    } by {
        let open = state.loops[l];
        lemma_has_block_update(
            blocks,
            last,
            blocks[last].with_items(items),
            label(LabelKind::WhileJoin, open.join),
        );
        lemma_has_block_update(
            blocks,
            last,
            blocks[last].with_items(items),
            label(LabelKind::WhileCond, open.cond),
        );
    }
    assert forall|i: int, p: int, t: int|
        0 <= i < next.blocks.len() && 0 <= p < next.blocks[i].items.len() && 0 <= t < item_targets(
            next.blocks[i].items[p],
        ).len() implies {
        let target = #[trigger] item_targets(next.blocks[i].items[p])[t];
        has_block(next.blocks, target) || pending.contains(target)
    } by {
        let target = item_targets(next.blocks[i].items[p])[t];
        if i == last && p >= blocks[last].items.len() {
            assert(next.blocks[i].items[p] == items[p - blocks[last].items.len()]);
            assert(item_targets(items[p - blocks[last].items.len()]).len() == 0);
        } else {
            assert(next.blocks[i].items[p] == blocks[i].items[p]);
            assert(target == item_targets(blocks[i].items[p])[t]);
            lemma_has_block_update(blocks, last, blocks[last].with_items(items), target);
        }
    }
}

proof fn lemma_sound_with_loop_opened(state: IrView)
    requires
        is_sound(state),
    ensures
        is_sound(state.with_loop_opened()),
{
    let blocks = state.blocks;
    let number = state.next_label;
    let next = state.with_loop_opened();
    let cond = next.blocks[blocks.len() as int];
    let body = next.blocks[blocks.len() as int + 1];
    let open = LoopView { cond: number, join: number + 2 };
    assert(next.blocks == blocks.push(cond).push(body));
    assert(cond.label == label(LabelKind::WhileCond, number));
    assert(body.label == label(LabelKind::WhileBody, number + 1));
    assert(next.loops == state.loops.push(open));

    assert forall|i: int| 0 <= i < next.blocks.len() implies is_numbered_below(
        (#[trigger] next.blocks[i]).label,
        next.next_label,
    ) by {
        if i < blocks.len() {
            assert(next.blocks[i] == blocks[i]);
            let (kind, used): (LabelKind, nat) = choose|kind: LabelKind, used: nat|
                used < number && blocks[i].label == #[trigger] label(kind, used);
            assert(used < number + 3 && next.blocks[i].label == label(kind, used));
        }
    }
    assert forall|i: int, j: int|
        #![trigger next.blocks[i], next.blocks[j]]
        0 <= i < j < next.blocks.len() implies next.blocks[i].label != next.blocks[j].label by {
        if j < blocks.len() {
            assert(next.blocks[i] == blocks[i]);
            assert(next.blocks[j] == blocks[j]);
        } else if i < blocks.len() {
            assert(next.blocks[i] == blocks[i]);
            lemma_fresh_number_is_unused(state, LabelKind::WhileCond, number);
            lemma_fresh_number_is_unused(state, LabelKind::WhileBody, number + 1);
        } else if cond.label == body.label {
            lemma_label_injective(
                LabelKind::WhileCond,
                number,
                LabelKind::WhileBody,
                number + 1,
            );
        }
    }
    assert forall|l: int| 0 <= l < next.loops.len() implies {
        let pending = #[trigger] next.loops[l];
        &&& pending.join < next.next_label
        &&& !has_block(next.blocks, label(LabelKind::WhileJoin, pending.join))
        &&& has_block(next.blocks, label(LabelKind::WhileCond, pending.cond))
    } by {
        let pending = next.loops[l];
        let join = label(LabelKind::WhileJoin, pending.join);
        let back = label(LabelKind::WhileCond, pending.cond);
        lemma_has_block_push(blocks, cond, join);
        lemma_has_block_push(blocks.push(cond), body, join);
        lemma_has_block_push(blocks, cond, back);
        lemma_has_block_push(blocks.push(cond), body, back);
        if cond.label == join {
            lemma_label_injective(
                LabelKind::WhileCond,
                number,
                LabelKind::WhileJoin,
                pending.join,
            );
        }
        if body.label == join {
            lemma_label_injective(
                LabelKind::WhileBody,
                number + 1,
                LabelKind::WhileJoin,
                pending.join,
            );
        }
        if l < state.loops.len() {
            assert(pending == state.loops[l]);
        } else {
            lemma_fresh_number_is_unused(state, LabelKind::WhileJoin, number + 2);
        }
    }
    assert forall|l: int, m: int|
        #![trigger next.loops[l], next.loops[m]]
        0 <= l < m < next.loops.len() implies next.loops[l].join != next.loops[m].join by {
        assert(next.loops[l] == state.loops[l]);
        if m < state.loops.len() {
            assert(next.loops[m] == state.loops[m]);
        }
    }
    assert forall|i: int, p: int, t: int|
        0 <= i < next.blocks.len() && 0 <= p < next.blocks[i].items.len() && 0 <= t < item_targets(
            next.blocks[i].items[p],
        ).len() implies {
        let target = #[trigger] item_targets(next.blocks[i].items[p])[t];
        has_block(next.blocks, target) || pending_joins(next.loops).contains(target)
    } by {
        let target = item_targets(next.blocks[i].items[p])[t];
        lemma_has_block_push(blocks, cond, target);
        lemma_has_block_push(blocks.push(cond), body, target);
        if i < blocks.len() {
            assert(next.blocks[i] == blocks[i]);
            assert(target == item_targets(blocks[i].items[p])[t]);
            if !has_block(blocks, target) {
                lemma_pending_grows(state.loops, open, target);
            }
        } else if i == blocks.len() {
            lemma_commands_are_straight(state.next_temp, true, 0);
            if p < 6 {
                assert(cond.items[p] == cell_value_code(state.next_temp)[p]);
                assert(item_targets(cell_value_code(state.next_temp)[p]).len() == 0);
            } else if t == 1 {
                lemma_pending_grows(state.loops, open, target);
            }
        }
    }
}

proof fn lemma_sound_with_loop_closed(state: IrView)
    requires
        is_sound(state),
        state.blocks.len() > 0,
        state.loops.len() > 0,
    ensures
        is_sound(state.with_loop_closed()),
{
    let innermost = state.loops.last();
    assert(innermost == state.loops[state.loops.len() - 1]);
    let back = label(LabelKind::WhileCond, innermost.cond);
    let join_label = label(LabelKind::WhileJoin, innermost.join);
    let jump = seq![ItemView::Volatile(InstrView::Jmp(back))];
    let blocks = state.blocks;
    let last = blocks.len() - 1;
    let jumped = state.with_items(jump).blocks;
    let join = BlockView { label: join_label, items: Seq::empty() };
    let next = state.with_loop_closed();
    assert(next.blocks == jumped.push(join));
    assert(next.loops == state.loops.drop_last());

    assert forall|i: int| 0 <= i < next.blocks.len() implies is_numbered_below(
        (#[trigger] next.blocks[i]).label,
        next.next_label,
    ) by {
        if i < blocks.len() {
            assert(next.blocks[i].label == blocks[i].label);
        } else {
            assert(innermost.join < state.next_label && next.blocks[i].label == label(
                LabelKind::WhileJoin,
                innermost.join,
            ));
        }
    }
    assert forall|i: int, j: int|
        #![trigger next.blocks[i], next.blocks[j]]
        0 <= i < j < next.blocks.len() implies next.blocks[i].label != next.blocks[j].label by {
        assert(next.blocks[i].label == blocks[i].label);
        if j < blocks.len() {
            assert(next.blocks[j].label == blocks[j].label);
        }
    }
    assert forall|l: int| 0 <= l < next.loops.len() implies {
        let pending = #[trigger] next.loops[l];
        &&& pending.join < next.next_label
        &&& !has_block(next.blocks, label(LabelKind::WhileJoin, pending.join))
        &&& has_block(next.blocks, label(LabelKind::WhileCond, pending.cond))
    } by {
        let pending = next.loops[l];
        assert(pending == state.loops[l]);
        let name = label(LabelKind::WhileJoin, pending.join);
        let cond = label(LabelKind::WhileCond, pending.cond);
        lemma_has_block_update(blocks, last, blocks[last].with_items(jump), name);
        lemma_has_block_push(jumped, join, name);
        lemma_has_block_update(blocks, last, blocks[last].with_items(jump), cond);
        lemma_has_block_push(jumped, join, cond);
        if join_label == name {
            lemma_label_injective(
                LabelKind::WhileJoin,
                innermost.join,
                LabelKind::WhileJoin,
                pending.join,
            );
        }
    }
    assert forall|l: int, m: int|
        #![trigger next.loops[l], next.loops[m]]
        0 <= l < m < next.loops.len() implies next.loops[l].join != next.loops[m].join by {
        assert(next.loops[l] == state.loops[l]);
        assert(next.loops[m] == state.loops[m]);
    }
    assert forall|i: int, p: int, t: int|
        0 <= i < next.blocks.len() && 0 <= p < next.blocks[i].items.len() && 0 <= t < item_targets(
            next.blocks[i].items[p],
        ).len() implies {
        let target = #[trigger] item_targets(next.blocks[i].items[p])[t];
        has_block(next.blocks, target) || pending_joins(next.loops).contains(target)
    } by {
        let target = item_targets(next.blocks[i].items[p])[t];
        lemma_has_block_update(blocks, last, blocks[last].with_items(jump), target);
        lemma_has_block_push(jumped, join, target);
        if i == last && p >= blocks[last].items.len() {
            assert(next.blocks[i].items[p] == jump[p - blocks[last].items.len()]);
            assert(target == back);
        } else {
            assert(next.blocks[i].items[p] == blocks[i].items[p]);
            assert(target == item_targets(blocks[i].items[p])[t]);
            if !has_block(blocks, target) {
                lemma_pending_shrinks(state.loops, target);
            }
        }
    }
}

/// The state of a new emitter with its entry blocks is sound.
pub proof fn lemma_entry_is_sound()
    ensures
        is_sound(IrView::initial().with_entry()),
        IrView::initial().with_entry().blocks.len() == 2,
        IrView::initial().with_entry().loops.len() == 0,
{
    let state = IrView::initial().with_entry();
    lemma_commands_are_straight(0, true, 0);
    assert(state.blocks[0].label == label(LabelKind::Start, 1));
    assert(state.blocks[1].label == label(LabelKind::Body, 2));
    assert(is_numbered_below(state.blocks[0].label, 3));
    assert(is_numbered_below(state.blocks[1].label, 3));
    if state.blocks[0].label == state.blocks[1].label {
        lemma_label_injective(LabelKind::Start, 1, LabelKind::Body, 2);
    }
    assert forall|i: int, p: int, t: int|
        0 <= i < state.blocks.len() && 0 <= p < state.blocks[i].items.len() && 0 <= t
            < item_targets(state.blocks[i].items[p]).len() implies {
        let target = #[trigger] item_targets(state.blocks[i].items[p])[t];
        has_block(state.blocks, target) || pending_joins(state.loops).contains(target)
    } by {
        if i == 0 {
            assert(item_targets(start_code()[p]).len() == 0);
        } else {
            assert(item_targets(body_code()[p]).len() == 0);
        }
    }
}

/// One run of commands keeps a sound state sound.
pub proof fn lemma_step_is_sound(state: IrView, unit: CompressedBrainfuckToken)
    requires
        is_sound(state),
        state.blocks.len() > 0,
        unit.token == BrainfuckToken::LoopEnd ==> state.loops.len() > 0,
    ensures
        is_sound(state.step(unit)),
{
    let first = state.next_temp;
    lemma_commands_are_straight(first, true, unit.num);
    lemma_commands_are_straight(first, false, unit.num);
    match unit.token {
        BrainfuckToken::Next => {
            lemma_sound_with_items(state, move_code(first, true, unit.num));
        },
        BrainfuckToken::Prev => {
            lemma_sound_with_items(state, move_code(first, false, unit.num));
        },
        BrainfuckToken::Add => {
            lemma_sound_with_items(state, update_code(first, true, unit.num));
        },
        BrainfuckToken::Sub => {
            lemma_sound_with_items(state, update_code(first, false, unit.num));
        },
        BrainfuckToken::Input => {
            lemma_sound_with_items(state, input_code(first));
        },
        BrainfuckToken::Out => {
            lemma_sound_with_items(state, output_code(first, unit.num));
        },
        BrainfuckToken::LoopStart => {
            lemma_sound_with_loop_opened(state);
        },
        BrainfuckToken::LoopEnd => {
            lemma_sound_with_loop_closed(state);
        },
        BrainfuckToken::Invalid => {},
    }
}

/// A program in which no `LoopEnd` comes where no loop is open keeps a sound
/// state sound.
pub proof fn lemma_run_is_sound(state: IrView, units: Seq<CompressedBrainfuckToken>)
    requires
        is_sound(state),
        state.blocks.len() > 0,
        loop_ends_matched(state.loops.len(), units),
    ensures
        is_sound(state.run(units)),
    decreases units.len(),
{
    if units.len() > 0 {
        let front = units.drop_last();
        assert forall|k: int| 0 <= k <= front.len() implies state.loops.len() + #[trigger] balance(
            front,
            0,
            k,
        ) >= 0 by {
            lemma_balance_of_prefix(units, units.len() - 1, 0, k);
            assert(state.loops.len() + balance(units, 0, k) >= 0);
        }
        lemma_run_is_sound(state, front);
        lemma_run_shape(state, front);
        lemma_balance_of_prefix(units, units.len() - 1, 0, units.len() - 1);
        assert(state.loops.len() + balance(units, 0, units.len() as int) >= 0);
        lemma_step_is_sound(state.run(front), units.last());
    }
}

/// In the function that is made for a whole program, every block has a label
/// of its own, and every jump leads to one of its blocks. It holds of every
/// program in which each `LoopEnd` closes a loop and no loop is left open.
pub proof fn lemma_every_jump_leads_to_a_block(units: Seq<CompressedBrainfuckToken>)
    requires
        loop_ends_matched(0, units),
        balance(units, 0, units.len() as int) == 0,
    ensures
        labels_distinct(IrView::initial().with_entry().run(units).finished_function().blocks),
        jumps_lead_to(
            IrView::initial().with_entry().run(units).finished_function().blocks,
            Seq::empty(),
        ),
{
    let entry = IrView::initial().with_entry();
    let state = entry.run(units);
    lemma_entry_is_sound();
    lemma_run_is_sound(entry, units);
    lemma_run_shape(entry, units);
    lemma_commands_are_straight(0, true, 0);
    lemma_sound_with_items(state, return_code());
    let returning = state.with_items(return_code());
    let blocks = state.finished_function().blocks;
    assert(blocks =~= returning.blocks);
    assert(pending_joins(returning.loops) =~= Seq::empty());
}

} // verus!

use bf_qbe::compiler::compile;
use qbe::{Block, BlockItem, Instr, Statement};

fn targets(block: &Block) -> Vec<String> {
    let mut names = Vec::new();
    for item in &block.items {
        match item {
            BlockItem::Statement(Statement::Volatile(Instr::Jmp(target))) => {
                names.push(target.clone());
            }
            BlockItem::Statement(Statement::Volatile(Instr::Jnz(_, if_nonzero, if_zero))) => {
                names.push(if_nonzero.clone());
                names.push(if_zero.clone());
            }
            _ => {}
        }
    }
    names
}

fn blocks_of(source: &[u8]) -> Vec<Block> {
    compile(source, false).unwrap().functions.remove(0).blocks
}

#[test]
fn every_block_has_a_label_of_its_own() {
    for source in [&b""[..], b"[-]", b"+[>[-]<[->+<]]", b"[-][-][-]", b",[.[-],]"] {
        let blocks = blocks_of(source);
        for (i, block) in blocks.iter().enumerate() {
            for other in &blocks[i + 1..] {
                assert_ne!(block.label, other.label);
            }
        }
    }
}

#[test]
fn every_jump_leads_to_a_block_of_the_function() {
    for source in [&b"[-]"[..], b"+[>[-]<[->+<]]", b"[-][-][-]", b",[.[-],]", b"[[[[+]]]]>"] {
        let blocks = blocks_of(source);
        let mut jumps = 0;
        for block in &blocks {
            for target in targets(block) {
                jumps += 1;
                assert!(blocks.iter().any(|other| other.label == target));
            }
        }
        assert!(jumps >= 3);
    }
}

#[test]
fn only_the_last_item_of_a_block_jumps() {
    for block in blocks_of(b"+[>[-]<[->+<]]") {
        for item in &block.items[..block.items.len().saturating_sub(1)] {
            assert!(!matches!(
                item,
                BlockItem::Statement(Statement::Volatile(
                    Instr::Jmp(_) | Instr::Jnz(..) | Instr::Ret(_)
                ))
            ));
        }
    }
}

#[test]
fn a_loop_jumps_forward_to_its_body_and_join_and_back_to_its_condition() {
    let blocks = blocks_of(b"+[-]");
    let position = |name: &str| blocks.iter().position(|block| block.label == name).unwrap();
    assert_eq!(targets(&blocks[position("while_cond.3")]), vec!["while_body.4", "while_join.5"]);
    assert_eq!(targets(&blocks[position("while_body.4")]), vec!["while_cond.3"]);
    assert!(position("while_cond.3") < position("while_body.4"));
    assert!(position("while_body.4") < position("while_join.5"));
}

use zjit::bytecode::{Iseq, Opcode, Word, insn_idx_at_offset};
use zjit::targets::compute_jump_targets;
use zjit::translate::TranslateError;

fn iseq(words: Vec<Word>) -> Iseq {
    Iseq { handle: 1, words }
}

#[test]
fn targets_are_sorted_ascending_without_duplicates() {
    // The first branch targets offset 7, the second targets offset 3:
    // discovered out of order, returned sorted.
    let words = vec![
        Word::Op(Opcode::PutNil),        // 0
        Word::Op(Opcode::BranchUnless),  // 1, next = 3, target = 3 + 4 = 7
        Word::Off(4),                    // 2
        Word::Op(Opcode::BranchUnless),  // 3, next = 5, target = 5 - 2 = 3
        Word::Off(-2),                   // 4
        Word::Op(Opcode::PutNil),        // 5
        Word::Op(Opcode::Leave),         // 6, next = 7 < 8: a boundary too
        Word::Op(Opcode::PutNil),        // 7
        Word::Op(Opcode::Leave),         // 8... (index 7 is the last boundary)
    ];
    let targets = compute_jump_targets(&iseq(words)).unwrap();
    assert_eq!(targets, vec![3, 7]);
    // Sorted strictly ascending: no duplicates.
    for w in targets.windows(2) {
        assert!(w[0] < w[1]);
    }
    // Every computed branch target is a member.
    assert!(targets.contains(&7));
    assert!(targets.contains(&3));
}

#[test]
fn duplicate_targets_are_recorded_once() {
    // Both the branch and the return establish offset 5.
    let words = vec![
        Word::Op(Opcode::PutNil),        // 0
        Word::Op(Opcode::BranchUnless),  // 1, next = 3, target = 3 + 2 = 5
        Word::Off(2),                    // 2
        Word::Op(Opcode::PutNil),        // 3
        Word::Op(Opcode::Leave),         // 4, next = 5 < 6
        Word::Op(Opcode::Leave),         // 5
    ];
    let targets = compute_jump_targets(&iseq(words)).unwrap();
    assert_eq!(targets, vec![5]);
}

#[test]
fn discovery_is_deterministic() {
    let words = vec![
        Word::Op(Opcode::PutNil),
        Word::Op(Opcode::BranchIf),
        Word::Off(1),
        Word::Op(Opcode::PutNil),
        Word::Op(Opcode::Leave),
    ];
    let t1 = compute_jump_targets(&iseq(words.clone())).unwrap();
    let t2 = compute_jump_targets(&iseq(words)).unwrap();
    assert_eq!(t1, t2);
}

#[test]
fn out_of_range_target_is_malformed() {
    let words = vec![
        Word::Op(Opcode::Jump),
        Word::Off(-100),
    ];
    assert_eq!(
        compute_jump_targets(&iseq(words)),
        Err(TranslateError::TargetOutOfBounds)
    );
}

#[test]
fn branch_without_offset_word_is_malformed() {
    let words = vec![Word::Op(Opcode::PutNil), Word::Op(Opcode::BranchNil)];
    assert_eq!(
        compute_jump_targets(&iseq(words)),
        Err(TranslateError::MalformedBytecode)
    );
}

#[test]
fn trailing_return_records_no_boundary() {
    let words = vec![Word::Op(Opcode::PutNil), Word::Op(Opcode::Leave)];
    let targets = compute_jump_targets(&iseq(words)).unwrap();
    assert!(targets.is_empty());
}

#[test]
fn offset_resolution_is_checked() {
    assert_eq!(insn_idx_at_offset(3, 4), Some(7));
    assert_eq!(insn_idx_at_offset(3, -3), Some(0));
    assert_eq!(insn_idx_at_offset(3, -4), None);
}

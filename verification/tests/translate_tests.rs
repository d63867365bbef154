use zjit::bytecode::{Iseq, Opcode, Word};
use zjit::ir::{Insn, InsnId, Opnd};
use zjit::translate::{TranslateError, UnknownHandling, iseq_to_ssa};
use zjit::value::Value;

fn iseq(words: Vec<Word>) -> Iseq {
    Iseq { handle: 7, words }
}

#[test]
fn translate_nil_method_returns_nil() {
    let f = iseq_to_ssa(
        &iseq(vec![Word::Op(Opcode::PutNil), Word::Op(Opcode::Leave)]),
        UnknownHandling::Skip,
    )
    .unwrap();
    assert_eq!(f.insns.len(), 3);
    assert!(matches!(f.insns[0], Insn::Snapshot { .. }));
    assert!(matches!(f.insns[1], Insn::Snapshot { .. }));
    assert_eq!(f.insns[2], Insn::Return { val: Opnd::Const(Value::nil()) });
    assert_eq!(f.blocks.len(), 1);
}

#[test]
fn translate_const_method_returns_const() {
    let k = Value::fixnum_from_usize(42);
    let f = iseq_to_ssa(
        &iseq(vec![Word::Op(Opcode::PutObject), Word::Val(k), Word::Op(Opcode::Leave)]),
        UnknownHandling::Skip,
    )
    .unwrap();
    assert_eq!(f.insns.len(), 3);
    assert_eq!(f.insns[2], Insn::Return { val: Opnd::Const(k) });
}

#[test]
fn translate_twice_yields_identical_functions() {
    let words = vec![
        Word::Op(Opcode::PutObject),
        Word::Val(Value::fixnum_from_usize(3)),
        Word::Op(Opcode::PutObject),
        Word::Val(Value::fixnum_from_usize(4)),
        Word::Op(Opcode::OptPlus),
        Word::Op(Opcode::Leave),
    ];
    let f1 = iseq_to_ssa(&iseq(words.clone()), UnknownHandling::Skip).unwrap();
    let f2 = iseq_to_ssa(&iseq(words), UnknownHandling::Skip).unwrap();
    assert_eq!(f1, f2);
}

#[test]
fn newarray_emits_sets_in_reverse_index_order() {
    let three = Value::fixnum_from_usize(3);
    let four = Value::fixnum_from_usize(4);
    let f = iseq_to_ssa(
        &iseq(vec![
            Word::Op(Opcode::PutObject),
            Word::Val(three),
            Word::Op(Opcode::PutObject),
            Word::Val(four),
            Word::Op(Opcode::NewArray),
            Word::Num(2),
            Word::Op(Opcode::Leave),
        ]),
        UnknownHandling::Skip,
    )
    .unwrap();
    // Two snapshots for the pushes, then snapshot + NewArray + the two
    // sets, then snapshot + return.
    assert_eq!(f.insns.len(), 8);
    assert_eq!(f.insns[3], Insn::NewArray { count: 2 });
    assert_eq!(f.insns[4], Insn::ArraySet { idx: 1, val: Opnd::Const(four) });
    assert_eq!(f.insns[5], Insn::ArraySet { idx: 0, val: Opnd::Const(three) });
    assert_eq!(f.insns[7], Insn::Return { val: Opnd::Insn(InsnId(3)) });
}

#[test]
fn newarray_of_zero_elements() {
    let f = iseq_to_ssa(
        &iseq(vec![Word::Op(Opcode::NewArray), Word::Num(0), Word::Op(Opcode::Leave)]),
        UnknownHandling::Skip,
    )
    .unwrap();
    assert_eq!(f.insns.len(), 4);
    assert_eq!(f.insns[1], Insn::NewArray { count: 0 });
    assert_eq!(f.insns[3], Insn::Return { val: Opnd::Insn(InsnId(1)) });
}

#[test]
fn opt_plus_lowers_to_send_with_documented_pop_order() {
    let three = Value::fixnum_from_usize(3);
    let four = Value::fixnum_from_usize(4);
    let f = iseq_to_ssa(
        &iseq(vec![
            Word::Op(Opcode::PutObject),
            Word::Val(three),
            Word::Op(Opcode::PutObject),
            Word::Val(four),
            Word::Op(Opcode::OptPlus),
            Word::Op(Opcode::Leave),
        ]),
        UnknownHandling::Skip,
    )
    .unwrap();
    // The translator pops the receiver first, so the receiver is the
    // value pushed last: Const(4), with Const(3) as the argument.
    match &f.insns[3] {
        Insn::Send { self_val, call_info, args } => {
            assert_eq!(*self_val, Opnd::Const(four));
            assert_eq!(call_info.name, "+");
            assert_eq!(args, &vec![Opnd::Const(three)]);
        }
        other => panic!("expected a Send, found {:?}", other),
    }
    assert_eq!(f.insns[5], Insn::Return { val: Opnd::Insn(InsnId(3)) });
}

#[test]
fn unbalanced_sequence_raises_stack_underflow() {
    let r = iseq_to_ssa(
        &iseq(vec![Word::Op(Opcode::OptPlus), Word::Op(Opcode::Leave)]),
        UnknownHandling::Skip,
    );
    assert_eq!(r, Err(TranslateError::StackUnderflow));
}

#[test]
fn balanced_sequence_translates() {
    let r = iseq_to_ssa(
        &iseq(vec![
            Word::Op(Opcode::PutNil),
            Word::Op(Opcode::PutNil),
            Word::Op(Opcode::OptPlus),
            Word::Op(Opcode::Leave),
        ]),
        UnknownHandling::Skip,
    );
    assert!(r.is_ok());
}

#[test]
fn branch_to_offset_zero_is_rejected() {
    let r = iseq_to_ssa(
        &iseq(vec![
            Word::Op(Opcode::PutNil),
            Word::Op(Opcode::BranchUnless),
            Word::Off(-3),
            Word::Op(Opcode::Leave),
        ]),
        UnknownHandling::Skip,
    );
    assert_eq!(r, Err(TranslateError::ZeroJumpTarget));
}

#[test]
fn branch_past_the_end_is_rejected() {
    let r = iseq_to_ssa(
        &iseq(vec![
            Word::Op(Opcode::PutNil),
            Word::Op(Opcode::BranchUnless),
            Word::Off(100),
            Word::Op(Opcode::Leave),
        ]),
        UnknownHandling::Skip,
    );
    assert_eq!(r, Err(TranslateError::TargetOutOfBounds));
}

#[test]
fn truncated_instruction_is_rejected() {
    let r = iseq_to_ssa(&iseq(vec![Word::Op(Opcode::PutObject)]), UnknownHandling::Skip);
    assert_eq!(r, Err(TranslateError::MalformedBytecode));
}

#[test]
fn argument_word_at_boundary_is_rejected() {
    let r = iseq_to_ssa(
        &iseq(vec![Word::Num(3), Word::Op(Opcode::Leave)]),
        UnknownHandling::Skip,
    );
    assert_eq!(r, Err(TranslateError::MalformedBytecode));
}

#[test]
fn dispatch_with_arguments_is_rejected() {
    let r = iseq_to_ssa(
        &iseq(vec![
            Word::Op(Opcode::PutNil),
            Word::Op(Opcode::OptSendWithoutBlock),
            Word::Call { method_name: "foo".to_string(), argc: 1 },
            Word::Op(Opcode::Leave),
        ]),
        UnknownHandling::Skip,
    );
    assert_eq!(r, Err(TranslateError::UnsupportedCallArgs));
}

#[test]
fn dispatch_without_arguments_lowers_to_send() {
    let f = iseq_to_ssa(
        &iseq(vec![
            Word::Op(Opcode::PutNil),
            Word::Op(Opcode::OptSendWithoutBlock),
            Word::Call { method_name: "itself".to_string(), argc: 0 },
            Word::Op(Opcode::Leave),
        ]),
        UnknownHandling::Skip,
    )
    .unwrap();
    match &f.insns[2] {
        Insn::Send { self_val, call_info, args } => {
            assert_eq!(*self_val, Opnd::Const(Value::nil()));
            assert_eq!(call_info.name, "itself");
            assert!(args.is_empty());
        }
        other => panic!("expected a Send, found {:?}", other),
    }
}

#[test]
fn unknown_opcode_is_skipped_when_asked() {
    // A jump is recognised by discovery but not lowered yet; in skip
    // mode translation continues past it.
    let f = iseq_to_ssa(
        &iseq(vec![
            Word::Op(Opcode::PutNil),
            Word::Op(Opcode::Jump),
            Word::Off(0),
            Word::Op(Opcode::Leave),
        ]),
        UnknownHandling::Skip,
    )
    .unwrap();
    // One extra block for the jump target, and no instruction emitted
    // for the jump itself.
    assert_eq!(f.blocks.len(), 2);
    assert_eq!(f.insns.len(), 4);
    assert_eq!(f.insns[3], Insn::Return { val: Opnd::Const(Value::nil()) });
}

#[test]
fn unknown_opcode_aborts_when_asked() {
    let r = iseq_to_ssa(
        &iseq(vec![
            Word::Op(Opcode::PutNil),
            Word::Op(Opcode::Jump),
            Word::Off(0),
            Word::Op(Opcode::Leave),
        ]),
        UnknownHandling::Reject,
    );
    assert_eq!(r, Err(TranslateError::UnknownOpcode));
}

#[test]
fn branchunless_emits_test_and_edge() {
    let f = iseq_to_ssa(
        &iseq(vec![
            Word::Op(Opcode::PutNil),
            Word::Op(Opcode::BranchUnless),
            Word::Off(1),
            Word::Op(Opcode::PutNil),
            Word::Op(Opcode::PutNil),
            Word::Op(Opcode::Leave),
        ]),
        UnknownHandling::Skip,
    )
    .unwrap();
    assert_eq!(f.blocks.len(), 2);
    assert!(matches!(f.insns[2], Insn::Test { val: Opnd::Const(_) }));
    match &f.insns[3] {
        Insn::IfFalse { val, target } => {
            assert_eq!(*val, Opnd::Insn(InsnId(2)));
            assert_eq!(target.target.0, 1);
            assert!(target.args.is_empty());
        }
        other => panic!("expected an IfFalse, found {:?}", other),
    }
}

#[test]
fn locals_are_written_and_read_through_slot_zero() {
    let k = Value::fixnum_from_usize(9);
    let f = iseq_to_ssa(
        &iseq(vec![
            Word::Op(Opcode::PutObject),
            Word::Val(k),
            Word::Op(Opcode::SetLocalWc0),
            Word::Op(Opcode::GetLocalWc0),
            Word::Op(Opcode::Leave),
        ]),
        UnknownHandling::Skip,
    )
    .unwrap();
    assert_eq!(f.insns[4], Insn::Return { val: Opnd::Const(k) });
}

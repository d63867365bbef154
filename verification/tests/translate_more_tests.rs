use zjit::bytecode::{Iseq, Opcode, Word};
use zjit::ir::{Insn, InsnId, Opnd};
use zjit::printer::FunctionPrinter;
use zjit::translate::{TranslateError, UnknownHandling, iseq_to_ssa};
use zjit::value::Value;

fn iseq(words: Vec<Word>) -> Iseq {
    Iseq { handle: 11, words }
}

#[test]
fn putstring_and_intern_chain_through_ids() {
    let v = Value(64);
    let f = iseq_to_ssa(
        &iseq(vec![
            Word::Op(Opcode::PutString),
            Word::Val(v),
            Word::Op(Opcode::Intern),
            Word::Op(Opcode::Leave),
        ]),
        UnknownHandling::Skip,
    )
    .unwrap();
    assert_eq!(f.insns[1], Insn::StringCopy { val: Opnd::Const(v) });
    assert_eq!(f.insns[3], Insn::StringIntern { val: Opnd::Insn(InsnId(1)) });
    assert_eq!(f.insns[5], Insn::Return { val: Opnd::Insn(InsnId(3)) });
}

#[test]
fn fixnum_shorthand_pushes_and_comparison() {
    let f = iseq_to_ssa(
        &iseq(vec![
            Word::Op(Opcode::PutObjectInt2Fix0),
            Word::Op(Opcode::PutObjectInt2Fix1),
            Word::Op(Opcode::OptLt),
            Word::Op(Opcode::Leave),
        ]),
        UnknownHandling::Skip,
    )
    .unwrap();
    match &f.insns[3] {
        Insn::Send { self_val, call_info, args } => {
            // The receiver is the first pop: the fixnum 1 pushed last.
            assert_eq!(*self_val, Opnd::Const(Value::fixnum_from_usize(1)));
            assert_eq!(call_info.name, "<");
            assert_eq!(args, &vec![Opnd::Const(Value::fixnum_from_usize(0))]);
        }
        other => panic!("expected a Send, found {:?}", other),
    }
}

#[test]
fn swap_dup_and_pop_rearrange_the_stack() {
    let a = Value::fixnum_from_usize(1);
    let b = Value::fixnum_from_usize(2);
    let f = iseq_to_ssa(
        &iseq(vec![
            Word::Op(Opcode::PutObject),
            Word::Val(a),
            Word::Op(Opcode::PutObject),
            Word::Val(b),
            Word::Op(Opcode::Swap),
            Word::Op(Opcode::Dup),
            Word::Op(Opcode::Pop),
            Word::Op(Opcode::Leave),
        ]),
        UnknownHandling::Skip,
    )
    .unwrap();
    // [a, b] -> swap -> [b, a] -> dup -> [b, a, a] -> pop -> [b, a];
    // the return takes a.
    assert_eq!(*f.insns.last().unwrap(), Insn::Return { val: Opnd::Const(a) });
}

#[test]
fn defined_and_constant_path_queries() {
    let obj = Value(100);
    let pushval = Value(200);
    let f = iseq_to_ssa(
        &iseq(vec![
            Word::Op(Opcode::OptGetConstantPath),
            Word::Num(7),
            Word::Op(Opcode::Defined),
            Word::Num(1),
            Word::Val(obj),
            Word::Val(pushval),
            Word::Op(Opcode::Leave),
        ]),
        UnknownHandling::Skip,
    )
    .unwrap();
    assert_eq!(f.insns[1], Insn::GetConstantPath { ic: 7 });
    assert_eq!(
        f.insns[3],
        Insn::Defined { op_type: 1, obj, pushval, v: Opnd::Insn(InsnId(1)) }
    );
    assert_eq!(f.insns[5], Insn::Return { val: Opnd::Insn(InsnId(3)) });
}

#[test]
fn nil_query_lowers_to_send() {
    let f = iseq_to_ssa(
        &iseq(vec![
            Word::Op(Opcode::PutNil),
            Word::Op(Opcode::OptNilP),
            Word::Op(Opcode::Leave),
        ]),
        UnknownHandling::Skip,
    )
    .unwrap();
    match &f.insns[2] {
        Insn::Send { self_val, call_info, args } => {
            assert_eq!(*self_val, Opnd::Const(Value::nil()));
            assert_eq!(call_info.name, "nil?");
            assert!(args.is_empty());
        }
        other => panic!("expected a Send, found {:?}", other),
    }
}

#[test]
fn array_construction_checks_its_operands() {
    let r = iseq_to_ssa(
        &iseq(vec![
            Word::Op(Opcode::PutNil),
            Word::Op(Opcode::NewArray),
            Word::Num(2),
            Word::Op(Opcode::Leave),
        ]),
        UnknownHandling::Skip,
    );
    assert_eq!(r, Err(TranslateError::StackUnderflow));
}

#[test]
fn printer_renders_blocks_and_edges() {
    let f = iseq_to_ssa(
        &iseq(vec![
            Word::Op(Opcode::PutNil),
            Word::Op(Opcode::BranchUnless),
            Word::Off(1),
            Word::Op(Opcode::PutNil),
            Word::Op(Opcode::PutNil),
            Word::Op(Opcode::Leave),
        ]),
        UnknownHandling::Skip,
    )
    .unwrap();
    let text = FunctionPrinter::from(&f).to_text();
    assert_eq!(
        text,
        "bb0:\n  v2 = Test Const(0x8)\n  v3 = IfFalse v2, bb1()\nbb1:\n  v7 = Return Const(0x8)\n"
    );
}

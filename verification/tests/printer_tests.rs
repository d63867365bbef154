use zjit::bytecode::{Iseq, Opcode, Word};
use zjit::ir::{FrameState, InsnId, Opnd};
use zjit::printer::{FunctionPrinter, print_dec, print_frame, print_hex_u64, print_opnd,
    print_value, write_vec};
use zjit::translate::{UnknownHandling, iseq_to_ssa};
use zjit::value::Value;

#[test]
fn decimal_and_hexadecimal_numerals() {
    assert_eq!(print_dec(0), "0");
    assert_eq!(print_dec(1234), "1234");
    assert_eq!(print_hex_u64(0), "0");
    assert_eq!(print_hex_u64(0xdeadbeef), "deadbeef");
}

#[test]
fn values_render_by_tag() {
    assert_eq!(print_value(Value::fixnum_from_usize(3)), "Fixnum(3)");
    assert_eq!(print_value(Value::nil()), "Const(0x8)");
    assert_eq!(print_opnd(&Opnd::Const(Value::fixnum_from_usize(7))), "Fixnum(7)");
    assert_eq!(print_opnd(&Opnd::Insn(InsnId(12))), "v12");
}

#[test]
fn write_vec_joins_with_commas_inside_brackets() {
    assert_eq!(write_vec(&vec![]), "[]");
    assert_eq!(write_vec(&vec!["a".to_string()]), "[a]");
    assert_eq!(
        write_vec(&vec!["a".to_string(), "b".to_string(), "c".to_string()]),
        "[a, b, c]"
    );
}

#[test]
fn frame_renders_pc_stack_and_locals() {
    let mut f = FrameState::new();
    f.push(Opnd::Const(Value::fixnum_from_usize(1)));
    assert_eq!(print_frame(&f), "FrameState { pc: 0, stack: [Fixnum(1)], locals: [] }");
}

#[test]
fn printer_elides_snapshots_by_default() {
    let f = iseq_to_ssa(
        &Iseq {
            handle: 0,
            words: vec![Word::Op(Opcode::PutNil), Word::Op(Opcode::Leave)],
        },
        UnknownHandling::Skip,
    )
    .unwrap();
    let text = FunctionPrinter::from(&f).to_text();
    assert_eq!(text, "bb0:\n  v2 = Return Const(0x8)\n");
}

#[test]
fn printer_shows_snapshots_when_asked() {
    let f = iseq_to_ssa(
        &Iseq {
            handle: 0,
            words: vec![Word::Op(Opcode::PutNil), Word::Op(Opcode::Leave)],
        },
        UnknownHandling::Skip,
    )
    .unwrap();
    let text = FunctionPrinter::with_snapshot(&f).to_text();
    assert!(text.contains("Snapshot FrameState { pc: 0, stack: [], locals: [] }"));
    assert!(text.contains("Snapshot FrameState { pc: 1, stack: [Const(0x8)], locals: [] }"));
    assert!(text.contains("v2 = Return Const(0x8)"));
}

#[test]
fn printer_renders_sends_with_callee_names() {
    let f = iseq_to_ssa(
        &Iseq {
            handle: 0,
            words: vec![
                Word::Op(Opcode::PutObject),
                Word::Val(Value::fixnum_from_usize(3)),
                Word::Op(Opcode::PutObject),
                Word::Val(Value::fixnum_from_usize(4)),
                Word::Op(Opcode::OptPlus),
                Word::Op(Opcode::Leave),
            ],
        },
        UnknownHandling::Skip,
    )
    .unwrap();
    let text = FunctionPrinter::from(&f).to_text();
    assert_eq!(text, "bb0:\n  v3 = Send Fixnum(4), :+, Fixnum(3)\n  v5 = Return v3\n");
}

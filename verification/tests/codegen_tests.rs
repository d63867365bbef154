use zjit::backend::{AsmInsn, AsmOpnd, Reg};
use zjit::bytecode::{Iseq, Opcode, Word};
use zjit::codegen::gen_function;
use zjit::ir::{Block, BlockId, Function, Insn, InsnId, Opnd};
use zjit::translate::{UnknownHandling, iseq_to_ssa};
use zjit::value::Value;

fn return_const_function(v: Value) -> Function {
    Function {
        iseq: 0,
        insns: vec![Insn::Return { val: Opnd::Const(v) }],
        blocks: vec![Block { params: vec![], insns: vec![InsnId(0)] }],
        entry_block: BlockId(0),
    }
}

#[test]
fn return_of_a_constant_produces_code() {
    let v = Value::fixnum_from_usize(3);
    let ctx = gen_function(&return_const_function(v)).unwrap();
    // Prologue (7), frame pop and teardown (7), native return (1).
    assert_eq!(ctx.insns.len(), 15);
    assert_eq!(ctx.insns[0], AsmInsn::FrameSetup);
    assert_eq!(ctx.insns[1], AsmInsn::CPush { src: AsmOpnd::Reg(Reg::Cfp) });
    assert_eq!(ctx.insns[14], AsmInsn::CRet { val: AsmOpnd::Val(v) });
}

#[test]
fn return_of_a_computed_value_is_rejected() {
    let f = Function {
        iseq: 0,
        insns: vec![Insn::Return { val: Opnd::Insn(InsnId(0)) }],
        blocks: vec![Block { params: vec![], insns: vec![InsnId(0)] }],
        entry_block: BlockId(0),
    };
    assert!(gen_function(&f).is_none());
}

#[test]
fn any_send_rejects_the_whole_function() {
    let f = iseq_to_ssa(
        &Iseq {
            handle: 0,
            words: vec![
                Word::Op(Opcode::PutObject),
                Word::Val(Value::fixnum_from_usize(3)),
                Word::Op(Opcode::PutObject),
                Word::Val(Value::fixnum_from_usize(4)),
                Word::Op(Opcode::OptPlus),
                Word::Op(Opcode::Leave),
            ],
        },
        UnknownHandling::Skip,
    )
    .unwrap();
    assert!(gen_function(&f).is_none());
}

#[test]
fn translated_nil_method_compiles_to_nil_return() {
    let f = iseq_to_ssa(
        &Iseq {
            handle: 0,
            words: vec![Word::Op(Opcode::PutNil), Word::Op(Opcode::Leave)],
        },
        UnknownHandling::Skip,
    )
    .unwrap();
    let ctx = gen_function(&f).unwrap();
    // Snapshots are inert: only the prologue and the return lowering.
    assert_eq!(ctx.insns.len(), 15);
    assert_eq!(
        *ctx.insns.last().unwrap(),
        AsmInsn::CRet { val: AsmOpnd::Val(Value::nil()) }
    );
}

#[test]
fn translated_const_method_compiles_to_const_return() {
    let k = Value::fixnum_from_usize(42);
    let f = iseq_to_ssa(
        &Iseq {
            handle: 0,
            words: vec![
                Word::Op(Opcode::PutObject),
                Word::Val(k),
                Word::Op(Opcode::Leave),
            ],
        },
        UnknownHandling::Skip,
    )
    .unwrap();
    let ctx = gen_function(&f).unwrap();
    assert_eq!(*ctx.insns.last().unwrap(), AsmInsn::CRet { val: AsmOpnd::Val(k) });
}

#[test]
fn return_lowering_pops_the_control_frame() {
    let v = Value::nil();
    let ctx = gen_function(&return_const_function(v)).unwrap();
    // The frame pop: advance the frame pointer by one control frame
    // and publish it into the execution context.
    assert_eq!(
        ctx.insns[7],
        AsmInsn::Add { left: AsmOpnd::Reg(Reg::Cfp), right: AsmOpnd::UImm(56) }
    );
    assert_eq!(
        ctx.insns[8],
        AsmInsn::Mov { dst: AsmOpnd::Reg(Reg::Cfp), src: AsmOpnd::Out(7) }
    );
    assert_eq!(
        ctx.insns[9],
        AsmInsn::Mov {
            dst: AsmOpnd::Mem { base: Reg::Ec, disp: 16 },
            src: AsmOpnd::Reg(Reg::Cfp),
        }
    );
    // Registers restored in reverse push order.
    assert_eq!(ctx.insns[10], AsmInsn::CPopInto { dst: AsmOpnd::Reg(Reg::Sp) });
    assert_eq!(ctx.insns[11], AsmInsn::CPopInto { dst: AsmOpnd::Reg(Reg::Ec) });
    assert_eq!(ctx.insns[12], AsmInsn::CPopInto { dst: AsmOpnd::Reg(Reg::Cfp) });
    assert_eq!(ctx.insns[13], AsmInsn::FrameTeardown);
}

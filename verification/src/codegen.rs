//! The code generator: lowers one SSA function into the backend
//! assembler's virtual instruction stream, or rejects the whole
//! function if it holds anything not yet supported.
//!
//! Rejection is all-or-nothing: no partial stream is kept, and the
//! caller falls back to interpreting the method unmodified.

use vstd::prelude::*;
use crate::backend::{AsmInsn, AsmOpnd, Assembler, Reg};
use crate::ir::{Function, FunctionV, Insn, InsnV, Opnd};
use crate::value::Value;

verus! {

/// Byte offset of the interpreter stack-pointer field inside the
/// control-frame structure.
pub const RUBY_OFFSET_CFP_SP: i64 = 8;

/// Byte offset of the current control-frame field inside the execution
/// context.
pub const RUBY_OFFSET_EC_CFP: i64 = 16;

/// Byte size of one control frame, the amount the frame pointer moves
/// when a frame is popped.
pub const RUBY_SIZEOF_CONTROL_FRAME: u64 = 56;

/// The entry prologue: establish the native frame, preserve the
/// interpreter's designated registers, bind the two incoming native
/// arguments to the execution context and the frame pointer, and load
/// the interpreter stack pointer out of the control frame.
pub open spec fn spec_prologue() -> Seq<AsmInsn> {
    seq![
        AsmInsn::FrameSetup,
        AsmInsn::CPush { src: AsmOpnd::Reg(Reg::Cfp) },
        AsmInsn::CPush { src: AsmOpnd::Reg(Reg::Ec) },
        AsmInsn::CPush { src: AsmOpnd::Reg(Reg::Sp) },
        AsmInsn::Mov { dst: AsmOpnd::Reg(Reg::Ec), src: AsmOpnd::CArg(0) },
        AsmInsn::Mov { dst: AsmOpnd::Reg(Reg::Cfp), src: AsmOpnd::CArg(1) },
        AsmInsn::Mov {
            dst: AsmOpnd::Reg(Reg::Sp),
            src: AsmOpnd::Mem { base: Reg::Cfp, disp: RUBY_OFFSET_CFP_SP },
        },
    ]
}

/// The frame-popping half of a lowered return, emitted at stream
/// position `pos`: advance the frame pointer past one control frame,
/// store it back into the execution context, and restore the preserved
/// registers in reverse push order.
pub open spec fn spec_return_frame_ops(pos: int) -> Seq<AsmInsn> {
    seq![
        AsmInsn::Add {
            left: AsmOpnd::Reg(Reg::Cfp),
            right: AsmOpnd::UImm(RUBY_SIZEOF_CONTROL_FRAME),
        },
        AsmInsn::Mov { dst: AsmOpnd::Reg(Reg::Cfp), src: AsmOpnd::Out(pos as usize) },
        AsmInsn::Mov {
            dst: AsmOpnd::Mem { base: Reg::Ec, disp: RUBY_OFFSET_EC_CFP },
            src: AsmOpnd::Reg(Reg::Cfp),
        },
        AsmInsn::CPopInto { dst: AsmOpnd::Reg(Reg::Sp) },
        AsmInsn::CPopInto { dst: AsmOpnd::Reg(Reg::Ec) },
        AsmInsn::CPopInto { dst: AsmOpnd::Reg(Reg::Cfp) },
        AsmInsn::FrameTeardown,
    ]
}

/// Lowering one return instruction onto the stream built so far: only
/// a constant operand can be returned; a computed value rejects the
/// function.
pub open spec fn spec_gen_return(acc: Seq<AsmInsn>, val: Opnd) -> Option<Seq<AsmInsn>> {
    match val {
        Opnd::Const(v) => Some(
            acc + spec_return_frame_ops(acc.len() as int) + seq![
                AsmInsn::CRet { val: AsmOpnd::Val(v) },
            ],
        ),
        Opnd::Insn(_) => None,
    }
}

/// Lowering the instruction table from position `i` on: snapshots are
/// inert, returns of constants are lowered, anything else rejects the
/// whole function.
pub open spec fn spec_gen_insns(insns: Seq<InsnV>, i: int, acc: Seq<AsmInsn>) -> Option<
    Seq<AsmInsn>,
>
    decreases insns.len() - i,
{
    if i < 0 || i >= insns.len() {
        Some(acc)
    } else {
        match insns[i] {
            InsnV::Snapshot { state } => spec_gen_insns(insns, i + 1, acc),
            InsnV::Return { val } => match spec_gen_return(acc, val) {
                None => None,
                Some(acc2) => spec_gen_insns(insns, i + 1, acc2),
            },
            _ => None,
        }
    }
}

/// What compiling one SSA function emits, if it is accepted: the entry
/// prologue followed by every instruction's lowering, in instruction
/// id order.
pub open spec fn spec_gen_function(f: FunctionV) -> Option<Seq<AsmInsn>> {
    spec_gen_insns(f.insns, 0, spec_prologue())
}

/// Emit the interpreter entry prologue.
pub fn gen_entry_prologue(ctx: &mut Assembler)
    ensures
        final(ctx)@ == old(ctx)@ + spec_prologue(),
{
    ctx.frame_setup();

    // Save the registers used for the control frame, the execution
    // context and the interpreter stack pointer.
    ctx.cpush(AsmOpnd::Reg(Reg::Cfp));
    ctx.cpush(AsmOpnd::Reg(Reg::Ec));
    ctx.cpush(AsmOpnd::Reg(Reg::Sp));

    // The execution context and control frame arrive as the two native
    // call arguments.
    ctx.mov(AsmOpnd::Reg(Reg::Ec), AsmOpnd::CArg(0));
    ctx.mov(AsmOpnd::Reg(Reg::Cfp), AsmOpnd::CArg(1));

    // Load the current interpreter stack pointer out of the control
    // frame.
    ctx.mov(
        AsmOpnd::Reg(Reg::Sp),
        AsmOpnd::Mem { base: Reg::Cfp, disp: RUBY_OFFSET_CFP_SP },
    );
    proof {
        assert(ctx@ =~= old(ctx)@ + spec_prologue());
    }
}

/// Emit the code that exits from generated code with a return value.
///
/// The control frame is popped and the native frame torn down first;
/// if the operand then turns out not to be a constant, the attempt is
/// rejected and the half-built stream is discarded with it.
pub fn gen_return(ctx: &mut Assembler, val: Opnd) -> (r: Option<()>)
    ensures
        match val {
            Opnd::Const(v) => r == Some(()) && spec_gen_return(old(ctx)@, val) == Some(
                final(ctx)@,
            ),
            Opnd::Insn(_) => r == None::<()> && final(ctx)@ == old(ctx)@
                + spec_return_frame_ops(old(ctx)@.len() as int),
        },
{
    // Pop the interpreter frame: advance the frame pointer by one
    // control frame and publish it back into the execution context.
    let incr_cfp = ctx.add(
        AsmOpnd::Reg(Reg::Cfp),
        AsmOpnd::UImm(RUBY_SIZEOF_CONTROL_FRAME),
    );
    ctx.mov(AsmOpnd::Reg(Reg::Cfp), incr_cfp);
    ctx.mov(
        AsmOpnd::Mem { base: Reg::Ec, disp: RUBY_OFFSET_EC_CFP },
        AsmOpnd::Reg(Reg::Cfp),
    );

    // Tear down the native frame symmetrically to the prologue.
    ctx.cpop_into(AsmOpnd::Reg(Reg::Sp));
    ctx.cpop_into(AsmOpnd::Reg(Reg::Ec));
    ctx.cpop_into(AsmOpnd::Reg(Reg::Cfp));
    ctx.frame_teardown();
    proof {
        assert(ctx@ =~= old(ctx)@ + spec_return_frame_ops(old(ctx)@.len() as int));
    }

    // Only a constant return value is supported so far.
    let v = match val {
        Opnd::Const(v) => v,
        Opnd::Insn(_) => {
            return None;
        },
    };
    ctx.cret(AsmOpnd::Val(v));
    proof {
        assert(ctx@ =~= old(ctx)@ + spec_return_frame_ops(old(ctx)@.len() as int) + seq![
            AsmInsn::CRet { val: AsmOpnd::Val(v) },
        ]);
    }
    Some(())
}

/// Compile one SSA function into the backend assembler's virtual
/// instruction stream.
///
/// The result is pinned to [`spec_gen_function`]: a function whose
/// instructions are all snapshots and constant returns is lowered to
/// exactly the prologue plus each return's lowering; any other
/// instruction rejects the whole function, and the caller keeps
/// interpreting the method. Handing the accepted stream to the backend
/// for register allocation and byte emission is the embedder's part.
#[verifier::loop_isolation(false)]
pub fn gen_function(function: &Function) -> (r: Option<Assembler>)
    ensures
        match r {
            Some(ctx) => spec_gen_function(function@) == Some(ctx@),
            None => spec_gen_function(function@) is None,
        },
{
    // Set up the special registers.
    let mut ctx = Assembler::new();
    gen_entry_prologue(&mut ctx);
    proof {
        assert(ctx@ =~= spec_prologue());
    }

    // Compile each instruction of the IR, in instruction id order.
    let mut i: usize = 0;
    while i < function.insns.len()
        invariant
            i <= function.insns@.len(),
            spec_gen_insns(function@.insns, i as int, ctx@) == spec_gen_function(function@),
        decreases function.insns@.len() - i,
    {
        proof {
            assert(function@.insns[i as int] == function.insns@[i as int]@);
        }
        match &function.insns[i] {
            Insn::Snapshot { .. } => {},
            Insn::Return { val } => {
                match gen_return(&mut ctx, *val) {
                    Some(()) => {},
                    None => {
                        return None;
                    },
                }
            },
            _ => {
                return None;
            },
        }
        i += 1;
    }
    Some(ctx)
}

/// A function that holds any dynamic dispatch — or anything else the
/// generator does not lower — is rejected whole: no stream is
/// produced.
pub proof fn lemma_unsupported_insn_rejected(f: FunctionV, i: int)
    requires
        0 <= i < f.insns.len(),
        !(f.insns[i] is Snapshot),
        !(f.insns[i] is Return),
    ensures
        spec_gen_function(f) is None,
{
    lemma_gen_insns_unsupported(f.insns, 0, spec_prologue(), i);
}

/// A function containing any `Send` instruction produces no code.
pub proof fn lemma_send_rejected(f: FunctionV, i: int)
    requires
        0 <= i < f.insns.len(),
        f.insns[i] is Send,
    ensures
        spec_gen_function(f) is None,
{
    lemma_unsupported_insn_rejected(f, i);
}

proof fn lemma_gen_insns_unsupported(insns: Seq<InsnV>, start: int, acc: Seq<AsmInsn>, i: int)
    requires
        0 <= start <= i < insns.len(),
        !(insns[i] is Snapshot),
        !(insns[i] is Return),
    ensures
        spec_gen_insns(insns, start, acc) is None,
    decreases i - start,
{
    if start < i {
        match insns[start] {
            InsnV::Snapshot { state } => {
                lemma_gen_insns_unsupported(insns, start + 1, acc, i);
            },
            InsnV::Return { val } => {
                match spec_gen_return(acc, val) {
                    None => {},
                    Some(acc2) => {
                        lemma_gen_insns_unsupported(insns, start + 1, acc2, i);
                    },
                }
            },
            _ => {},
        }
    }
}

/// A function whose sole content is a return of a constant is accepted
/// and lowered to exactly the prologue, the frame pop, and a native
/// return carrying that constant.
pub proof fn lemma_return_const_accepted(f: FunctionV, v: Value)
    requires
        f.insns == seq![InsnV::Return { val: Opnd::Const(v) }],
    ensures
        spec_gen_function(f) == Some(
            spec_prologue() + spec_return_frame_ops(spec_prologue().len() as int) + seq![
                AsmInsn::CRet { val: AsmOpnd::Val(v) },
            ],
        ),
{
    reveal_with_fuel(spec_gen_insns, 3);
    assert(f.insns[0] == InsnV::Return { val: Opnd::Const(v) });
    assert(f.insns.len() == 1);
}

/// A function whose instructions are snapshots followed by one final
/// return of a constant is accepted, and the stream it lowers to ends
/// in a native return carrying that constant.
pub proof fn lemma_snapshots_then_return_const_accepted(f: FunctionV, v: Value)
    requires
        f.insns.len() >= 1,
        f.insns.last() == (InsnV::Return { val: Opnd::Const(v) }),
        forall|i: int| 0 <= i < f.insns.len() - 1 ==> f.insns[i] is Snapshot,
    ensures
        spec_gen_function(f) is Some,
        spec_gen_function(f)->Some_0.len() > 0,
        spec_gen_function(f)->Some_0.last() == (AsmInsn::CRet { val: AsmOpnd::Val(v) }),
{
    lemma_gen_insns_snapshot_prefix(f.insns, 0, spec_prologue());
    reveal_with_fuel(spec_gen_insns, 3);
    assert(spec_gen_insns(f.insns, f.insns.len() - 1, spec_prologue()) is Some);
}

/// Skipping a run of snapshots leaves the lowering where it was.
proof fn lemma_gen_insns_snapshot_prefix(insns: Seq<InsnV>, i: int, acc: Seq<AsmInsn>)
    requires
        insns.len() >= 1,
        0 <= i <= insns.len() - 1,
        forall|j: int| 0 <= j < insns.len() - 1 ==> insns[j] is Snapshot,
    ensures
        spec_gen_insns(insns, i, acc) == spec_gen_insns(insns, insns.len() - 1, acc),
    decreases insns.len() - i,
{
    if i < insns.len() - 1 {
        lemma_gen_insns_snapshot_prefix(insns, i + 1, acc);
    }
}

} // verus!

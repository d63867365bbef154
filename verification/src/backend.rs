//! Abstract model of the backend assembler's interface.
//!
//! The backend (register allocation and byte emission) is an external
//! collaborator; the code generator's own output is the ordered stream
//! of abstract operations it hands over. That stream is what this
//! module records.

use vstd::prelude::*;
use crate::value::Value;

verus! {

/// The interpreter registers the generated code must preserve and
/// rebind: the control-frame pointer, the execution context, and the
/// interpreter stack pointer.
#[derive(Copy, Clone, PartialEq, Eq, Debug, Structural)]
pub enum Reg {
    Cfp,
    Ec,
    Sp,
}

/// An abstract operand handed to the backend assembler.
#[derive(Copy, Clone, PartialEq, Eq, Debug, Structural)]
pub enum AsmOpnd {
    /// One of the designated interpreter registers.
    Reg(Reg),
    /// The n-th incoming native call argument.
    CArg(usize),
    /// A 64-bit memory operand at a fixed displacement from a register.
    Mem { base: Reg, disp: i64 },
    /// The value produced by the assembler instruction at this position
    /// of the stream.
    Out(usize),
    /// An immediate tagged value.
    Val(Value),
    /// A plain unsigned immediate.
    UImm(u64),
}

/// One abstract operation of the virtual instruction stream.
#[derive(Copy, Clone, PartialEq, Eq, Debug, Structural)]
pub enum AsmInsn {
    /// Establish the native calling frame.
    FrameSetup,
    /// Tear the native calling frame down.
    FrameTeardown,
    /// Push onto the native stack.
    CPush { src: AsmOpnd },
    /// Pop from the native stack into an operand.
    CPopInto { dst: AsmOpnd },
    Mov { dst: AsmOpnd, src: AsmOpnd },
    Add { left: AsmOpnd, right: AsmOpnd },
    /// Native return carrying a value.
    CRet { val: AsmOpnd },
}

/// The assembler context of one compilation attempt: the virtual
/// instruction stream built so far.
#[derive(Clone, PartialEq, Debug)]
pub struct Assembler {
    pub insns: Vec<AsmInsn>,
}

impl View for Assembler {
    type V = Seq<AsmInsn>;

    open spec fn view(&self) -> Seq<AsmInsn> {
        self.insns@
    }
}

impl Assembler {
    /// A fresh context with an empty stream.
    pub fn new() -> (a: Assembler)
        ensures
            a@ == Seq::<AsmInsn>::empty(),
    {
        let a = Assembler { insns: Vec::new() };
        proof {
            assert(a@ =~= Seq::<AsmInsn>::empty());
        }
        a
    }

    pub fn frame_setup(&mut self)
        ensures
            final(self)@ == old(self)@.push(AsmInsn::FrameSetup),
    {
        self.insns.push(AsmInsn::FrameSetup);
    }

    pub fn frame_teardown(&mut self)
        ensures
            final(self)@ == old(self)@.push(AsmInsn::FrameTeardown),
    {
        self.insns.push(AsmInsn::FrameTeardown);
    }

    pub fn cpush(&mut self, src: AsmOpnd)
        ensures
            final(self)@ == old(self)@.push(AsmInsn::CPush { src }),
    {
        self.insns.push(AsmInsn::CPush { src });
    }

    pub fn cpop_into(&mut self, dst: AsmOpnd)
        ensures
            final(self)@ == old(self)@.push(AsmInsn::CPopInto { dst }),
    {
        self.insns.push(AsmInsn::CPopInto { dst });
    }

    pub fn mov(&mut self, dst: AsmOpnd, src: AsmOpnd)
        ensures
            final(self)@ == old(self)@.push(AsmInsn::Mov { dst, src }),
    {
        self.insns.push(AsmInsn::Mov { dst, src });
    }

    /// Append an addition and hand back the operand that names its
    /// result: the position the instruction occupies in the stream.
    pub fn add(&mut self, left: AsmOpnd, right: AsmOpnd) -> (r: AsmOpnd)
        ensures
            final(self)@ == old(self)@.push(AsmInsn::Add { left, right }),
            r == AsmOpnd::Out(old(self)@.len() as usize),
    {
        let pos = self.insns.len();
        self.insns.push(AsmInsn::Add { left, right });
        AsmOpnd::Out(pos)
    }

    pub fn cret(&mut self, val: AsmOpnd)
        ensures
            final(self)@ == old(self)@.push(AsmInsn::CRet { val }),
    {
        self.insns.push(AsmInsn::CRet { val });
    }
}

} // verus!

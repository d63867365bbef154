//! The SSA intermediate representation: instructions, blocks, one
//! function per compiled method, and the abstract frame state the
//! translator threads through a method's bytecode.
//!
//! Every type has a mathematical image (its view) over `Seq`; the
//! translator's and code generator's contracts are stated over those
//! images.

use vstd::prelude::*;
use vstd::pervasive::VecAdditionalExecFns;
use crate::value::Value;

verus! {

/// Identity of an instruction's result slot: a dense, 0-based index into
/// a function's instruction table, never reused.
#[derive(Copy, Clone, PartialEq, Eq, Hash, Debug, Structural)]
pub struct InsnId(pub usize);

/// Identity of a basic block: a dense, 0-based index into a function's
/// block table, never reused.
#[derive(Copy, Clone, PartialEq, Eq, Hash, Debug, Structural)]
pub struct BlockId(pub usize);

/// Instruction operand: an immediate tagged value, or a reference to a
/// previously produced instruction result.
#[derive(Copy, Clone, PartialEq, Eq, Debug, Structural)]
pub enum Opnd {
    Const(Value),
    Insn(InsnId),
}

/// A control transfer to a block, together with the operand values
/// passed as that block's parameters.
#[derive(Clone, PartialEq, Debug)]
pub struct BranchEdge {
    pub target: BlockId,
    pub args: Vec<Opnd>,
}

/// Mathematical image of a [`BranchEdge`].
#[verifier::ext_equal]
pub struct BranchEdgeV {
    pub target: BlockId,
    pub args: Seq<Opnd>,
}

impl View for BranchEdge {
    type V = BranchEdgeV;

    open spec fn view(&self) -> BranchEdgeV {
        BranchEdgeV { target: self.target, args: self.args@ }
    }
}

/// What the translator knows about a dynamic call site: the resolved
/// callee name.
#[derive(Clone, PartialEq, Debug)]
pub struct CallInfo {
    pub name: String,
}

impl View for CallInfo {
    type V = Seq<char>;

    open spec fn view(&self) -> Seq<char> {
        self.name@
    }
}

/// One SSA instruction.
#[derive(Clone, PartialEq, Debug)]
pub enum Insn {
    /// SSA block parameter; also used for function parameters in the
    /// entry block.
    Param { idx: usize },
    StringCopy { val: Opnd },
    StringIntern { val: Opnd },
    NewArray { count: usize },
    ArraySet { idx: usize, val: Opnd },
    /// Boolean test of a value.
    Test { val: Opnd },
    Defined { op_type: usize, obj: Value, pushval: Value, v: Opnd },
    /// Constant-path lookup through an inline cache, identified by a
    /// stable cache id.
    GetConstantPath { ic: usize },
    /// Debug/recovery snapshot of the simulated frame at a program
    /// point; inert to code generation.
    Snapshot { state: FrameState },
    /// Unconditional jump.
    Jump(BranchEdge),
    /// Conditional branches.
    IfTrue { val: Opnd, branch: BranchEdge },
    IfFalse { val: Opnd, target: BranchEdge },
    /// Raw call of a native function, identified by a stable id.
    CCall { cfun: usize, args: Vec<Opnd> },
    /// Dynamic dispatch: callee name plus receiver and arguments.
    Send { self_val: Opnd, call_info: CallInfo, args: Vec<Opnd> },
    /// Function return.
    Return { val: Opnd },
}

/// Mathematical image of an [`Insn`].
#[verifier::ext_equal]
pub enum InsnV {
    Param { idx: usize },
    StringCopy { val: Opnd },
    StringIntern { val: Opnd },
    NewArray { count: usize },
    ArraySet { idx: usize, val: Opnd },
    Test { val: Opnd },
    Defined { op_type: usize, obj: Value, pushval: Value, v: Opnd },
    GetConstantPath { ic: usize },
    Snapshot { state: FrameV },
    Jump(BranchEdgeV),
    IfTrue { val: Opnd, branch: BranchEdgeV },
    IfFalse { val: Opnd, target: BranchEdgeV },
    CCall { cfun: usize, args: Seq<Opnd> },
    Send { self_val: Opnd, call_info: Seq<char>, args: Seq<Opnd> },
    Return { val: Opnd },
}

impl View for Insn {
    type V = InsnV;

    open spec fn view(&self) -> InsnV {
        match self {
            Insn::Param { idx } => InsnV::Param { idx: *idx },
            Insn::StringCopy { val } => InsnV::StringCopy { val: *val },
            Insn::StringIntern { val } => InsnV::StringIntern { val: *val },
            Insn::NewArray { count } => InsnV::NewArray { count: *count },
            Insn::ArraySet { idx, val } => InsnV::ArraySet { idx: *idx, val: *val },
            Insn::Test { val } => InsnV::Test { val: *val },
            Insn::Defined { op_type, obj, pushval, v } => InsnV::Defined {
                op_type: *op_type,
                obj: *obj,
                pushval: *pushval,
                v: *v,
            },
            Insn::GetConstantPath { ic } => InsnV::GetConstantPath { ic: *ic },
            Insn::Snapshot { state } => InsnV::Snapshot { state: state@ },
            Insn::Jump(edge) => InsnV::Jump(edge@),
            Insn::IfTrue { val, branch } => InsnV::IfTrue { val: *val, branch: branch@ },
            Insn::IfFalse { val, target } => InsnV::IfFalse { val: *val, target: target@ },
            Insn::CCall { cfun, args } => InsnV::CCall { cfun: *cfun, args: args@ },
            Insn::Send { self_val, call_info, args } => InsnV::Send {
                self_val: *self_val,
                call_info: call_info@,
                args: args@,
            },
            Insn::Return { val } => InsnV::Return { val: *val },
        }
    }
}

/// An ordered sequence of instruction ids, plus the ids of the block's
/// parameters.
#[derive(Clone, PartialEq, Debug)]
pub struct Block {
    pub params: Vec<InsnId>,
    pub insns: Vec<InsnId>,
}

/// Mathematical image of a [`Block`].
#[verifier::ext_equal]
pub struct BlockV {
    pub params: Seq<InsnId>,
    pub insns: Seq<InsnId>,
}

impl View for Block {
    type V = BlockV;

    open spec fn view(&self) -> BlockV {
        BlockV { params: self.params@, insns: self.insns@ }
    }
}

/// The empty block, as a spec value.
pub open spec fn empty_block() -> BlockV {
    BlockV { params: Seq::empty(), insns: Seq::empty() }
}

/// One method's SSA program: a flat instruction table, the block table,
/// and the entry block designator. `iseq` is the opaque handle of the
/// source method, kept for diagnostics only.
#[derive(Clone, PartialEq, Debug)]
pub struct Function {
    pub iseq: u64,
    pub insns: Vec<Insn>,
    pub blocks: Vec<Block>,
    pub entry_block: BlockId,
}

/// Mathematical image of a [`Function`].
#[verifier::ext_equal]
pub struct FunctionV {
    pub iseq: u64,
    pub insns: Seq<InsnV>,
    pub blocks: Seq<BlockV>,
    pub entry_block: BlockId,
}

impl View for Function {
    type V = FunctionV;

    open spec fn view(&self) -> FunctionV {
        FunctionV {
            iseq: self.iseq,
            insns: self.insns@.map_values(|i: Insn| i@),
            blocks: self.blocks@.map_values(|b: Block| b@),
            entry_block: self.entry_block,
        }
    }
}

/// A function is well formed when its entry designator and every
/// instruction id recorded in a block point into its tables.
pub open spec fn fv_wf(f: FunctionV) -> bool {
    &&& f.entry_block.0 < f.blocks.len()
    &&& forall|b: int, k: int|
        0 <= b < f.blocks.len() && 0 <= k < f.blocks[b].insns.len()
            ==> (#[trigger] f.blocks[b].insns[k]).0 < f.insns.len()
}

/// Appending one instruction to a block: the instruction joins the flat
/// table, and its id is recorded in the block.
pub open spec fn fv_push_insn(f: FunctionV, block: BlockId, insn: InsnV) -> FunctionV
    recommends
        block.0 < f.blocks.len(),
{
    let id = InsnId(f.insns.len() as usize);
    FunctionV {
        insns: f.insns.push(insn),
        blocks: f.blocks.update(
            block.0 as int,
            BlockV { insns: f.blocks[block.0 as int].insns.push(id), ..f.blocks[block.0 as int] },
        ),
        ..f
    }
}

/// The id [`fv_push_insn`] assigns: the next slot of the flat table.
pub open spec fn fv_next_id(f: FunctionV) -> InsnId {
    InsnId(f.insns.len() as usize)
}

/// Appending an instruction keeps a well-formed function well formed.
pub proof fn lemma_push_insn_wf(f: FunctionV, block: BlockId, insn: InsnV)
    requires
        fv_wf(f),
        block.0 < f.blocks.len(),
    ensures
        fv_wf(fv_push_insn(f, block, insn)),
{
    let g = fv_push_insn(f, block, insn);
    assert forall|b: int, k: int|
        0 <= b < g.blocks.len() && 0 <= k < g.blocks[b].insns.len() implies (#[trigger] g.blocks[
        b].insns[k]).0 < g.insns.len() by {
        if b == block.0 as int && k == g.blocks[b].insns.len() - 1 {
        } else {
            assert(f.blocks[b].insns[k].0 < f.insns.len());
        }
    }
}

/// Broadcast form of [`lemma_push_insn_wf`], so chains of appends
/// stay well formed without naming each one.
pub broadcast proof fn lemma_push_insn_wf_auto(f: FunctionV, block: BlockId, insn: InsnV)
    ensures
        fv_wf(f) && block.0 < f.blocks.len() ==> fv_wf(#[trigger] fv_push_insn(f, block, insn)),
{
    if fv_wf(f) && block.0 < f.blocks.len() {
        lemma_push_insn_wf(f, block, insn);
    }
}

impl Function {
    /// A fresh function for one compilation attempt: no instructions,
    /// one empty block, which is the entry block.
    pub fn new(iseq: u64) -> (f: Function)
        ensures
            f@ == (FunctionV {
                iseq,
                insns: Seq::empty(),
                blocks: seq![empty_block()],
                entry_block: BlockId(0),
            }),
    {
        let f = Function {
            iseq,
            insns: Vec::new(),
            blocks: vec![Block { params: Vec::new(), insns: Vec::new() }],
            entry_block: BlockId(0),
        };
        proof {
            assert(f@.insns =~= Seq::<InsnV>::empty());
            assert(f@.blocks =~= seq![empty_block()]);
            assert(f@ =~= (FunctionV {
                iseq,
                insns: Seq::empty(),
                blocks: seq![empty_block()],
                entry_block: BlockId(0),
            }));
        }
        f
    }

    /// Add an instruction to an SSA block and return its id.
    pub fn push_insn(&mut self, block: BlockId, insn: Insn) -> (id: InsnId)
        requires
            block.0 < old(self).blocks@.len(),
        ensures
            id == fv_next_id(old(self)@),
            final(self)@ == fv_push_insn(old(self)@, block, insn@),
    {
        let ghost insn_v = insn@;
        let id = InsnId(self.insns.len());
        self.insns.push(insn);
        self.blocks[block.0].insns.push(id);
        proof {
            let o = old(self)@;
            assert(final(self)@.insns =~= o.insns.push(insn_v));
            assert(final(self)@.blocks =~= fv_push_insn(o, block, insn_v).blocks);
            assert(final(self)@ =~= fv_push_insn(o, block, insn_v));
        }
        id
    }

    /// Append a fresh, empty block and return its id.
    pub fn new_block(&mut self) -> (id: BlockId)
        ensures
            id == BlockId(old(self).blocks@.len() as usize),
            final(self)@ == (FunctionV { blocks: old(self)@.blocks.push(empty_block()), ..old(
                self,
            )@ }),
    {
        let id = BlockId(self.blocks.len());
        self.blocks.push(Block { params: Vec::new(), insns: Vec::new() });
        proof {
            assert(final(self)@.blocks =~= old(self)@.blocks.push(empty_block()));
            assert(final(self)@ =~= (FunctionV {
                blocks: old(self)@.blocks.push(empty_block()),
                ..old(self)@
            }));
        }
        id
    }
}

/// The abstract simulation of the bytecode's evaluation stack and
/// local-variable slots at one program point.
#[derive(Clone, PartialEq, Debug)]
pub struct FrameState {
    /// Bytecode offset of the instruction being translated.
    pub pc: usize,
    pub stack: Vec<Opnd>,
    pub locals: Vec<Opnd>,
}

/// Mathematical image of a [`FrameState`].
#[verifier::ext_equal]
pub struct FrameV {
    pub pc: usize,
    pub stack: Seq<Opnd>,
    pub locals: Seq<Opnd>,
}

impl View for FrameState {
    type V = FrameV;

    open spec fn view(&self) -> FrameV {
        FrameV { pc: self.pc, stack: self.stack@, locals: self.locals@ }
    }
}

/// Pushing one operand onto the simulated stack.
pub open spec fn fs_push(f: FrameV, opnd: Opnd) -> FrameV {
    FrameV { stack: f.stack.push(opnd), ..f }
}

/// The local-variable array grown to at least `n` slots, new slots
/// filled with the nil constant, mirroring the interpreter's lazy slot
/// initialisation.
pub open spec fn grown(locals: Seq<Opnd>, n: int) -> Seq<Opnd> {
    if locals.len() >= n {
        locals
    } else {
        locals + Seq::new((n - locals.len()) as nat, |i: int| Opnd::Const(Value::spec_nil()))
    }
}

/// Writing local slot `idx`, growing the array first if needed.
pub open spec fn fs_setlocal(f: FrameV, idx: int, opnd: Opnd) -> FrameV {
    FrameV { locals: grown(f.locals, idx + 1).update(idx, opnd), ..f }
}

/// Reading local slot `idx` also grows the array, like the
/// interpreter's own lazy initialisation does.
pub open spec fn fs_getlocal_frame(f: FrameV, idx: int) -> FrameV {
    FrameV { locals: grown(f.locals, idx + 1), ..f }
}

impl FrameState {
    /// The state at method entry: empty stack, no materialised locals.
    pub fn new() -> (f: FrameState)
        ensures
            f@ == (FrameV { pc: 0, stack: Seq::empty(), locals: Seq::empty() }),
    {
        let f = FrameState { pc: 0, stack: Vec::new(), locals: Vec::new() };
        proof {
            assert(f@ =~= (FrameV { pc: 0, stack: Seq::empty(), locals: Seq::empty() }));
        }
        f
    }

    pub fn push(&mut self, opnd: Opnd)
        ensures
            final(self)@ == fs_push(old(self)@, opnd),
    {
        self.stack.push(opnd);
        proof {
            assert(final(self)@ =~= fs_push(old(self)@, opnd));
        }
    }

    /// The topmost operand. Reading an empty stack would be a fatal
    /// stack-depth mismatch, so callers must rule it out.
    pub fn top(&self) -> (r: Opnd)
        requires
            self@.stack.len() > 0,
        ensures
            r == self@.stack.last(),
    {
        self.stack[self.stack.len() - 1]
    }

    /// Remove and return the topmost operand. Popping an empty stack
    /// would be a fatal stack-depth mismatch, so callers must rule it
    /// out.
    pub fn pop(&mut self) -> (r: Opnd)
        requires
            old(self)@.stack.len() > 0,
        ensures
            r == old(self)@.stack.last(),
            final(self)@ == (FrameV { stack: old(self)@.stack.drop_last(), ..old(self)@ }),
    {
        let r = self.stack.pop().unwrap();
        proof {
            assert(final(self)@ =~= (FrameV { stack: old(self)@.stack.drop_last(), ..old(
                self,
            )@ }));
        }
        r
    }

    /// Grow the local array so that slot `idx` exists.
    fn grow_locals(&mut self, idx: usize)
        requires
            idx < usize::MAX,
        ensures
            final(self)@ == fs_getlocal_frame(old(self)@, idx as int),
    {
        while self.locals.len() < idx + 1
            invariant
                idx < usize::MAX,
                self@.pc == old(self)@.pc,
                self@.stack == old(self)@.stack,
                self@.locals == grown(old(self)@.locals, self@.locals.len() as int),
                self@.locals.len() <= idx + 1 || self@.locals == old(self)@.locals,
            decreases idx + 1 - self.locals.len(),
        {
            self.locals.push(Opnd::Const(Value::nil()));
            proof {
                assert(self@.locals =~= grown(old(self)@.locals, self@.locals.len() as int));
            }
        }
        proof {
            assert(self@.locals =~= grown(old(self)@.locals, idx + 1));
            assert(final(self)@ =~= fs_getlocal_frame(old(self)@, idx as int));
        }
    }

    /// Write local slot `idx`, transparently growing the local array
    /// and filling fresh slots with the nil constant.
    pub fn setlocal(&mut self, idx: usize, opnd: Opnd)
        requires
            idx < usize::MAX,
        ensures
            final(self)@ == fs_setlocal(old(self)@, idx as int, opnd),
    {
        self.grow_locals(idx);
        self.locals.set(idx, opnd);
        proof {
            assert(final(self)@ =~= fs_setlocal(old(self)@, idx as int, opnd));
        }
    }

    /// Read local slot `idx`, transparently growing the local array and
    /// filling fresh slots with the nil constant.
    pub fn getlocal(&mut self, idx: usize) -> (r: Opnd)
        requires
            idx < usize::MAX,
        ensures
            final(self)@ == fs_getlocal_frame(old(self)@, idx as int),
            r == final(self)@.locals[idx as int],
    {
        self.grow_locals(idx);
        self.locals[idx]
    }

    /// An equal copy of this state, captured by snapshots.
    pub fn duplicate(&self) -> (r: FrameState)
        ensures
            r@ == self@,
    {
        let r = FrameState { pc: self.pc, stack: self.stack.clone(), locals: self.locals.clone() };
        proof {
            assert(r@.stack =~= self@.stack);
            assert(r@.locals =~= self@.locals);
            assert(r@ =~= self@);
        }
        r
    }
}

} // verus!

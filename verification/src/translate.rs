//! The bytecode-to-SSA translator: one forward linear scan over a
//! method's bytecode, threading the abstract frame state and emitting
//! one group of IR instructions per bytecode operation.
//!
//! At each instruction boundary the translator (a) switches to the
//! block that control-flow discovery established there, if any, (b)
//! records a snapshot of the live frame state before interpreting the
//! instruction's effects, and (c) dispatches on the opcode.

use vstd::prelude::*;
use crate::bytecode::{
    Iseq, Opcode, Word, WordV, spec_arg_at, spec_insn_idx_at_offset, spec_insn_len,
    spec_opcode_at, get_arg, insn_idx_at_offset, insn_len, opcode_at,
};
use crate::ir::{
    BlockId, BranchEdge, BranchEdgeV, CallInfo, FrameState, FrameV, Function, FunctionV, Insn,
    InsnId, InsnV, Opnd, empty_block, fs_getlocal_frame, fs_push, fs_setlocal, fv_next_id,
    fv_push_insn,
};
use crate::targets::{
    compute_jump_targets, lemma_branch_target_member, lemma_reaches_step, lemma_scan_err_kind,
    lemma_scan_ok_branch_valid, lemma_strictly_sorted_len, reaches, scan_targets, strictly_sorted,
};
use crate::value::Value;

verus! {

/// Why a compilation attempt was abandoned during translation.
///
/// All of these are fatal to the current attempt only; the method keeps
/// running under the interpreter.
#[derive(Copy, Clone, PartialEq, Eq, Debug, Structural)]
pub enum TranslateError {
    /// An instruction boundary does not hold an opcode word, or an
    /// argument word is missing or of the wrong kind.
    MalformedBytecode,
    /// A branch's computed target lies before the start or past the end
    /// of the method body.
    TargetOutOfBounds,
    /// A branch targets offset zero, the reserved re-entry offset: the
    /// entry block is implicit and must not be re-entered.
    ZeroJumpTarget,
    /// The simulated operand stack was popped while empty: a
    /// bytecode/stack-depth mismatch.
    StackUnderflow,
    /// Dynamic dispatch with an argument-count shape the translator
    /// does not support yet.
    UnsupportedCallArgs,
    /// An opcode the translator does not lower, while the caller asked
    /// for strict treatment of such opcodes.
    UnknownOpcode,
    /// Internal consistency failure: a branch target that control-flow
    /// discovery did not establish as a block.
    MissingBlock,
}

/// How the translator treats opcodes it does not lower yet. Whether
/// such an opcode should degrade the translation or abort it whole is
/// an open design choice, so it is the caller's.
#[derive(Copy, Clone, PartialEq, Eq, Debug, Structural)]
pub enum UnknownHandling {
    /// Skip the instruction: translation continues with less
    /// information, which downstream stages must catch.
    Skip,
    /// Abort the whole compilation attempt.
    Reject,
}

/// The translator's running state: the function under construction,
/// the simulated frame, and the block instructions are appended to.
#[verifier::ext_equal]
pub struct TransSt {
    pub fun: FunctionV,
    pub state: FrameV,
    pub block: BlockId,
}

/// Push one operand onto the simulated stack.
pub open spec fn st_push(st: TransSt, opnd: Opnd) -> TransSt {
    TransSt { state: fs_push(st.state, opnd), ..st }
}

/// Pop the simulated stack; an empty stack is the fatal stack-depth
/// mismatch.
pub open spec fn st_pop(st: TransSt) -> Result<(Opnd, TransSt), TranslateError> {
    if st.state.stack.len() == 0 {
        Err(TranslateError::StackUnderflow)
    } else {
        Ok(
            (
                st.state.stack.last(),
                TransSt {
                    state: FrameV { stack: st.state.stack.drop_last(), ..st.state },
                    ..st
                },
            ),
        )
    }
}

/// Emit one instruction into the current block and hand back its id.
pub open spec fn st_emit(st: TransSt, insn: InsnV) -> (TransSt, InsnId) {
    (TransSt { fun: fv_push_insn(st.fun, st.block, insn), ..st }, fv_next_id(st.fun))
}

/// First position of an offset in a target list, or -1.
pub open spec fn find_idx(s: Seq<usize>, x: usize) -> int
    decreases s.len(),
{
    if s.len() == 0 {
        -1
    } else if s[0] == x {
        0
    } else {
        let r = find_idx(s.drop_first(), x);
        if r < 0 {
            -1
        } else {
            r + 1
        }
    }
}

/// What [`find_idx`] finds: a valid position holding the offset, or -1
/// exactly when the offset is absent.
pub proof fn lemma_find_idx(s: Seq<usize>, x: usize)
    ensures
        find_idx(s, x) >= 0 ==> 0 <= find_idx(s, x) < s.len() && s[find_idx(s, x)] == x,
        (find_idx(s, x) >= 0) <==> s.contains(x),
    decreases s.len(),
{
    if s.len() == 0 {
        assert(!s.contains(x)) by {
            if s.contains(x) {
                let i = choose|i: int| 0 <= i < s.len() && s[i] == x;
            }
        }
    } else if s[0] == x {
        assert(s.contains(x)) by {
            assert(s[0] == x);
        }
    } else {
        let tail = s.drop_first();
        lemma_find_idx(tail, x);
        if find_idx(s, x) >= 0 {
            assert(tail[find_idx(tail, x)] == x);
            assert(s[find_idx(s, x)] == x);
        }
        if tail.contains(x) {
            let i = choose|i: int| 0 <= i < tail.len() && tail[i] == x;
            assert(s[i + 1] == x);
            assert(s.contains(x));
        }
        if s.contains(x) {
            let i = choose|i: int| 0 <= i < s.len() && s[i] == x;
            assert(i > 0);
            assert(tail[i - 1] == x);
            assert(tail.contains(x));
        }
    }
}

/// The first position of `x`, searched from the front.
fn find_target(targets: &Vec<usize>, x: usize) -> (r: Option<usize>)
    ensures
        r == if find_idx(targets@, x) >= 0 {
            Some(find_idx(targets@, x) as usize)
        } else {
            None::<usize>
        },
{
    let mut i: usize = 0;
    while i < targets.len()
        invariant
            0 <= i <= targets@.len(),
            forall|k: int| 0 <= k < i ==> targets@[k] != x,
        decreases targets@.len() - i,
    {
        if targets[i] == x {
            proof {
                lemma_find_idx_first(targets@, x, i as int);
            }
            return Some(i);
        }
        i += 1;
    }
    proof {
        lemma_find_idx_first(targets@, x, targets@.len() as int);
    }
    None
}

/// If every position before `i` misses `x`, the search resolves to `i`
/// (or to absence when `i` is the length).
proof fn lemma_find_idx_first(s: Seq<usize>, x: usize, i: int)
    requires
        0 <= i <= s.len(),
        forall|k: int| 0 <= k < i ==> s[k] != x,
        i < s.len() ==> s[i] == x,
    ensures
        find_idx(s, x) == if i < s.len() {
            i
        } else {
            -1
        },
    decreases i,
{
    if s.len() == 0 {
    } else if i == 0 {
    } else {
        let tail = s.drop_first();
        assert(forall|k: int| 0 <= k < i - 1 ==> tail[k] == s[k + 1] && s[k + 1] != x);
        assert(i - 1 < tail.len() ==> tail[i - 1] == s[i]);
        lemma_find_idx_first(tail, x, i - 1);
    }
}

/// The effect of one dispatched bytecode operation on the translator's
/// state: the IR it emits and the stack/local effects it simulates, or
/// the failure that abandons the attempt.
///
/// `st` already carries the snapshot of this boundary; `next` is the
/// offset of the word after the instruction.
pub open spec fn step_insn(
    code: Seq<WordV>,
    targets: Seq<usize>,
    st: TransSt,
    idx: int,
    next: int,
    op: Opcode,
    mode: UnknownHandling,
) -> Result<TransSt, TranslateError> {
    match op {
        Opcode::Nop => Ok(st),
        Opcode::PutNil => Ok(st_push(st, Opnd::Const(Value::spec_nil()))),
        Opcode::PutObject => match spec_arg_at(code, idx, 0) {
            Some(WordV::Val(v)) => Ok(st_push(st, Opnd::Const(v))),
            _ => Err(TranslateError::MalformedBytecode),
        },
        Opcode::PutString => match spec_arg_at(code, idx, 0) {
            Some(WordV::Val(v)) => {
                let (st1, id) = st_emit(st, InsnV::StringCopy { val: Opnd::Const(v) });
                Ok(st_push(st1, Opnd::Insn(id)))
            },
            _ => Err(TranslateError::MalformedBytecode),
        },
        Opcode::Intern => match st_pop(st) {
            Err(e) => Err(e),
            Ok((v, st1)) => {
                let (st2, id) = st_emit(st1, InsnV::StringIntern { val: v });
                Ok(st_push(st2, Opnd::Insn(id)))
            },
        },
        Opcode::NewArray => match spec_arg_at(code, idx, 0) {
            Some(WordV::Num(count)) => {
                let (st1, id) = st_emit(st, InsnV::NewArray { count });
                match newarray_sets(st1, count as int) {
                    Err(e) => Err(e),
                    Ok(st2) => Ok(st_push(st2, Opnd::Insn(id))),
                }
            },
            _ => Err(TranslateError::MalformedBytecode),
        },
        Opcode::PutObjectInt2Fix0 => Ok(
            st_push(st, Opnd::Const(Value::spec_fixnum_from_usize(0))),
        ),
        Opcode::PutObjectInt2Fix1 => Ok(
            st_push(st, Opnd::Const(Value::spec_fixnum_from_usize(1))),
        ),
        Opcode::SetLocalWc0 => match st_pop(st) {
            Err(e) => Err(e),
            Ok((v, st1)) => Ok(
                TransSt { state: fs_setlocal(st1.state, 0, v), ..st1 },
            ),
        },
        Opcode::GetLocalWc0 => {
            let f2 = fs_getlocal_frame(st.state, 0);
            Ok(st_push(TransSt { state: f2, ..st }, f2.locals[0]))
        },
        Opcode::Defined => match (
            spec_arg_at(code, idx, 0),
            spec_arg_at(code, idx, 1),
            spec_arg_at(code, idx, 2),
        ) {
            (Some(WordV::Num(op_type)), Some(WordV::Val(obj)), Some(WordV::Val(pushval))) => match
                st_pop(st) {
                Err(e) => Err(e),
                Ok((v, st1)) => {
                    let (st2, id) = st_emit(
                        st1,
                        InsnV::Defined { op_type, obj, pushval, v },
                    );
                    Ok(st_push(st2, Opnd::Insn(id)))
                },
            },
            _ => Err(TranslateError::MalformedBytecode),
        },
        Opcode::OptGetConstantPath => match spec_arg_at(code, idx, 0) {
            Some(WordV::Num(ic)) => {
                let (st1, id) = st_emit(st, InsnV::GetConstantPath { ic });
                Ok(st_push(st1, Opnd::Insn(id)))
            },
            _ => Err(TranslateError::MalformedBytecode),
        },
        Opcode::BranchUnless => match spec_arg_at(code, idx, 0) {
            Some(WordV::Off(off)) => match st_pop(st) {
                Err(e) => Err(e),
                Ok((val, st1)) => {
                    let (st2, test_id) = st_emit(st1, InsnV::Test { val });
                    match spec_insn_idx_at_offset(next as usize, off) {
                        None => Err(TranslateError::MissingBlock),
                        Some(t) => {
                            let fi = find_idx(targets, t);
                            if fi < 0 {
                                Err(TranslateError::MissingBlock)
                            } else {
                                let (st3, _branch_id) = st_emit(
                                    st2,
                                    InsnV::IfFalse {
                                        val: Opnd::Insn(test_id),
                                        target: BranchEdgeV {
                                            target: BlockId((1 + fi) as usize),
                                            args: Seq::empty(),
                                        },
                                    },
                                );
                                Ok(st3)
                            }
                        },
                    }
                },
            },
            _ => Err(TranslateError::MalformedBytecode),
        },
        Opcode::OptNilP => match st_pop(st) {
            Err(e) => Err(e),
            Ok((recv, st1)) => {
                let (st2, id) = st_emit(
                    st1,
                    InsnV::Send { self_val: recv, call_info: "nil?"@, args: Seq::empty() },
                );
                Ok(st_push(st2, Opnd::Insn(id)))
            },
        },
        Opcode::Pop => match st_pop(st) {
            Err(e) => Err(e),
            Ok((_v, st1)) => Ok(st1),
        },
        Opcode::Dup => {
            if st.state.stack.len() == 0 {
                Err(TranslateError::StackUnderflow)
            } else {
                Ok(st_push(st, st.state.stack.last()))
            }
        },
        Opcode::Swap => match st_pop(st) {
            Err(e) => Err(e),
            Ok((right, st1)) => match st_pop(st1) {
                Err(e) => Err(e),
                Ok((left, st2)) => Ok(st_push(st_push(st2, right), left)),
            },
        },
        // The receiver is the first pop: the topmost operand.
        Opcode::OptPlus => match st_pop(st) {
            Err(e) => Err(e),
            Ok((v0, st1)) => match st_pop(st1) {
                Err(e) => Err(e),
                Ok((v1, st2)) => {
                    let (st3, id) = st_emit(
                        st2,
                        InsnV::Send { self_val: v0, call_info: "+"@, args: seq![v1] },
                    );
                    Ok(st_push(st3, Opnd::Insn(id)))
                },
            },
        },
        Opcode::OptLt => match st_pop(st) {
            Err(e) => Err(e),
            Ok((v0, st1)) => match st_pop(st1) {
                Err(e) => Err(e),
                Ok((v1, st2)) => {
                    let (st3, id) = st_emit(
                        st2,
                        InsnV::Send { self_val: v0, call_info: "<"@, args: seq![v1] },
                    );
                    Ok(st_push(st3, Opnd::Insn(id)))
                },
            },
        },
        Opcode::Leave => match st_pop(st) {
            Err(e) => Err(e),
            Ok((val, st1)) => {
                let (st2, _id) = st_emit(st1, InsnV::Return { val });
                Ok(st2)
            },
        },
        Opcode::OptSendWithoutBlock => match spec_arg_at(code, idx, 0) {
            Some(WordV::Call { method_name, argc }) => {
                if argc != 0 {
                    Err(TranslateError::UnsupportedCallArgs)
                } else {
                    match st_pop(st) {
                        Err(e) => Err(e),
                        Ok((recv, st1)) => {
                            let (st2, id) = st_emit(
                                st1,
                                InsnV::Send {
                                    self_val: recv,
                                    call_info: method_name,
                                    args: Seq::empty(),
                                },
                            );
                            Ok(st_push(st2, Opnd::Insn(id)))
                        },
                    }
                }
            },
            _ => Err(TranslateError::MalformedBytecode),
        },
        Opcode::Jump | Opcode::BranchIf | Opcode::BranchNil => match mode {
            UnknownHandling::Skip => Ok(st),
            UnknownHandling::Reject => Err(TranslateError::UnknownOpcode),
        },
    }
}

/// The element-assignment instructions of array construction: `k`
/// operands are popped and re-associated positionally, so the
/// assignments come out in reverse index order, matching pop order.
pub open spec fn newarray_sets(st: TransSt, k: int) -> Result<TransSt, TranslateError>
    decreases k,
{
    if k <= 0 {
        Ok(st)
    } else {
        match st_pop(st) {
            Err(e) => Err(e),
            Ok((v, st1)) => {
                let (st2, _id) = st_emit(st1, InsnV::ArraySet { idx: (k - 1) as usize, val: v });
                newarray_sets(st2, k - 1)
            },
        }
    }
}

/// The translation scan from boundary `idx` on: switch to the block
/// discovery established there, record a snapshot of the live frame,
/// then dispatch on the opcode.
pub open spec fn tr_from(
    code: Seq<WordV>,
    targets: Seq<usize>,
    st: TransSt,
    idx: int,
    mode: UnknownHandling,
) -> Result<FunctionV, TranslateError>
    decreases code.len() - idx,
{
    if idx < 0 || idx >= code.len() {
        Ok(st.fun)
    } else {
        let fi = find_idx(targets, idx as usize);
        let st_b = if fi >= 0 {
            TransSt { block: BlockId((1 + fi) as usize), ..st }
        } else {
            st
        };
        let st_pc = TransSt { state: FrameV { pc: idx as usize, ..st_b.state }, ..st_b };
        let (st_s, _snap_id) = st_emit(st_pc, InsnV::Snapshot { state: st_pc.state });
        match spec_opcode_at(code, idx) {
            None => Err(TranslateError::MalformedBytecode),
            Some(op) => {
                let next = idx + spec_insn_len(op);
                let cont = if next > code.len() {
                    code.len() as int
                } else {
                    next
                };
                match step_insn(code, targets, st_s, idx, next, op, mode) {
                    Err(e) => Err(e),
                    Ok(st2) => tr_from(code, targets, st2, cont, mode),
                }
            },
        }
    }
}

/// The function a fresh translation starts from: no instructions, the
/// implicit entry block, and one empty block per discovered target, in
/// target order.
pub open spec fn init_fun(handle: u64, n_targets: int) -> FunctionV {
    FunctionV {
        iseq: handle,
        insns: Seq::empty(),
        blocks: Seq::new((n_targets + 1) as nat, |k: int| empty_block()),
        entry_block: BlockId(0),
    }
}

/// The state a fresh translation starts from.
pub open spec fn init_st(handle: u64, n_targets: int) -> TransSt {
    TransSt {
        fun: init_fun(handle, n_targets),
        state: FrameV { pc: 0, stack: Seq::empty(), locals: Seq::empty() },
        block: BlockId(0),
    }
}

/// What translating one method body produces: discovery's target list,
/// the zero-target check, then the linear scan. Translation of a
/// well-formed body always produces a function; rejection of its
/// content is the code generator's to report.
pub open spec fn spec_translate(handle: u64, code: Seq<WordV>, mode: UnknownHandling) -> Result<
    FunctionV,
    TranslateError,
> {
    match scan_targets(code, 0, Seq::empty()) {
        Err(e) => Err(e),
        Ok(ts) => if ts.len() > 0 && ts[0] == 0 {
            Err(TranslateError::ZeroJumpTarget)
        } else {
            tr_from(code, ts, init_st(handle, ts.len() as int), 0, mode)
        },
    }
}

/// Lift one method's bytecode into a fresh SSA function.
///
/// The result is pinned to [`spec_translate`]: the same body always
/// yields the same function, and each abandoned attempt names the
/// malformation or unsupported shape that ended it.
#[verifier::rlimit(100)]
#[verifier::loop_isolation(false)]
pub fn iseq_to_ssa(iseq: &Iseq, mode: UnknownHandling) -> (r: Result<Function, TranslateError>)
    ensures
        match r {
            Ok(f) => spec_translate(iseq.handle, iseq@, mode) == Ok::<FunctionV, TranslateError>(
                f@,
            ),
            Err(e) => spec_translate(iseq.handle, iseq@, mode) == Err::<FunctionV, TranslateError>(
                e,
            ),
        },
        r is Ok ==> crate::ir::fv_wf(r->Ok_0@),
{
    let ghost code = iseq@;
    let n = iseq.words.len();

    // Compute the block boundaries: every jump target, plus the
    // instruction after each return.
    let targets = match compute_jump_targets(iseq) {
        Ok(ts) => ts,
        Err(e) => {
            return Err(e);
        },
    };
    let ghost ts = targets@;
    // Offset zero as a branch target is reserved: the entry block is
    // implicit and pre-allocated.
    if targets.len() > 0 && targets[0] == 0 {
        return Err(TranslateError::ZeroJumpTarget);
    }
    proof {
        lemma_strictly_sorted_len(ts, n as int);
    }

    let mut fun = Function::new(iseq.handle);
    // One block per discovered boundary, in ascending boundary order.
    let mut bi: usize = 0;
    while bi < targets.len()
        invariant
            bi <= ts.len(),
            ts == targets@,
            fun@.iseq == iseq.handle,
            fun@.insns == Seq::<InsnV>::empty(),
            fun@.entry_block == BlockId(0),
            fun@.blocks == Seq::new((bi + 1) as nat, |k: int| empty_block()),
        decreases ts.len() - bi,
    {
        fun.new_block();
        proof {
            assert(fun@.blocks =~= Seq::new((bi + 2) as nat, |k: int| empty_block()));
        }
        bi += 1;
    }
    proof {
        assert(fun@ =~= init_fun(iseq.handle, ts.len() as int));
    }

    let mut state = FrameState::new();
    let mut block = BlockId(0);
    let mut idx: usize = 0;

    proof {
        assert(TransSt { fun: fun@, state: state@, block } =~= init_st(
            iseq.handle,
            ts.len() as int,
        ));
    }

    while idx < n
        invariant
            n == iseq.words@.len(),
            code == iseq@,
            ts == targets@,
            strictly_sorted(ts),
            forall|k: int| 0 <= k < ts.len() ==> ts[k] < code.len(),
            ts.len() <= n,
            fun@.blocks.len() == ts.len() + 1,
            block.0 < fun@.blocks.len(),
            tr_from(code, ts, TransSt { fun: fun@, state: state@, block }, idx as int, mode)
                == tr_from(code, ts, init_st(iseq.handle, ts.len() as int), 0, mode),
        decreases n - idx,
    {
        let ghost idx0 = idx as int;
        let ghost st_in = TransSt { fun: fun@, state: state@, block };

        // (a) Switch to the block this boundary opens, if discovery
        // established one here.
        match find_target(&targets, idx) {
            Some(fi) => {
                proof {
                    lemma_find_idx(ts, idx);
                }
                block = BlockId(1 + fi);
            },
            None => {},
        }
        let ghost st_b = if find_idx(ts, idx) >= 0 {
            TransSt { block: BlockId((1 + find_idx(ts, idx)) as usize), ..st_in }
        } else {
            st_in
        };
        proof {
            assert(TransSt { fun: fun@, state: state@, block } =~= st_b);
        }

        // (b) Record the pre-instruction frame state, so recovery back
        // to the interpreter always reflects it.
        state.pc = idx;
        let ghost st_pc = TransSt { state: FrameV { pc: idx, ..st_b.state }, ..st_b };
        proof {
            assert(TransSt { fun: fun@, state: state@, block } =~= st_pc);
        }
        fun.push_insn(block, Insn::Snapshot { state: state.duplicate() });
        let ghost st_s = TransSt { fun: fun@, state: state@, block };
        proof {
            assert(st_s =~= st_emit(st_pc, InsnV::Snapshot { state: st_pc.state }).0);
        }

        // (c) Dispatch on the opcode.
        let op = match opcode_at(iseq, idx) {
            Some(op) => op,
            None => {
                proof {
                    assert(tr_from(code, ts, st_in, idx0, mode) == Err::<
                        FunctionV,
                        TranslateError,
                    >(TranslateError::MalformedBytecode));
                }
                return Err(TranslateError::MalformedBytecode);
            },
        };
        let step = insn_len(op);
        let ghost next = idx0 + spec_insn_len(op);
        let cont: usize = if step >= n - idx {
            n
        } else {
            idx + step
        };
        assert(cont as int == if next > code.len() {
            code.len() as int
        } else {
            next
        });

        match dispatch(iseq, &targets, &mut fun, &mut state, block, idx, cont, op, mode) {
            Ok(()) => {},
            Err(e) => {
                proof {
                    assert(step_insn(code, ts, st_s, idx0, next, op, mode)
                        == Err::<TransSt, TranslateError>(e));
                    assert(tr_from(code, ts, st_in, idx0, mode) == Err::<
                        FunctionV,
                        TranslateError,
                    >(e));
                }
                return Err(e);
            },
        }
        proof {
            assert(step_insn(code, ts, st_s, idx0, next, op, mode) == Ok::<
                TransSt,
                TranslateError,
            >(TransSt { fun: fun@, state: state@, block }));
            assert(tr_from(code, ts, st_in, idx0, mode) == tr_from(
                code,
                ts,
                TransSt { fun: fun@, state: state@, block },
                cont as int,
                mode,
            ));
        }
        idx = cont;
    }
    proof {
        lemma_translate_wf(iseq.handle, code, mode);
    }
    Ok(fun)
}

/// Interpret one dispatched opcode: emit its IR and apply its stack and
/// local effects, exactly as [`step_insn`] says.
#[verifier::rlimit(50)]
#[verifier::loop_isolation(false)]
fn dispatch(
    iseq: &Iseq,
    targets: &Vec<usize>,
    fun: &mut Function,
    state: &mut FrameState,
    block: BlockId,
    idx: usize,
    cont: usize,
    op: Opcode,
    mode: UnknownHandling,
) -> (r: Result<(), TranslateError>)
    requires
        block.0 < old(fun).blocks@.len(),
        old(fun)@.blocks.len() == targets@.len() + 1,
        (idx as int) < iseq@.len(),
        spec_opcode_at(iseq@, idx as int) == Some(op),
    ensures
        match r {
            Ok(()) => {
                &&& step_insn(
                    iseq@,
                    targets@,
                    TransSt { fun: old(fun)@, state: old(state)@, block },
                    idx as int,
                    idx + spec_insn_len(op),
                    op,
                    mode,
                ) == Ok::<TransSt, TranslateError>(
                    TransSt { fun: final(fun)@, state: final(state)@, block },
                )
                &&& final(fun)@.blocks.len() == old(fun)@.blocks.len()
            },
            Err(e) => step_insn(
                iseq@,
                targets@,
                TransSt { fun: old(fun)@, state: old(state)@, block },
                idx as int,
                idx + spec_insn_len(op),
                op,
                mode,
            ) == Err::<TransSt, TranslateError>(e),
        },
{
    let ghost st = TransSt { fun: old(fun)@, state: old(state)@, block };
    let ghost code = iseq@;
    let ghost ts = targets@;
    let ghost next = idx + spec_insn_len(op);
    match op {
        Opcode::Nop => Ok(()),
        Opcode::PutNil => {
            state.push(Opnd::Const(Value::nil()));
            Ok(())
        },
        Opcode::PutObject => {
            let v = match get_arg(iseq, idx, 0) {
                Some(Word::Val(v)) => *v,
                _ => {
                    return Err(TranslateError::MalformedBytecode);
                },
            };
            state.push(Opnd::Const(v));
            Ok(())
        },
        Opcode::PutString => {
            let v = match get_arg(iseq, idx, 0) {
                Some(Word::Val(v)) => *v,
                _ => {
                    return Err(TranslateError::MalformedBytecode);
                },
            };
            let id = fun.push_insn(block, Insn::StringCopy { val: Opnd::Const(v) });
            state.push(Opnd::Insn(id));
            Ok(())
        },
        Opcode::Intern => {
            if state.stack.len() == 0 {
                return Err(TranslateError::StackUnderflow);
            }
            let v = state.pop();
            let id = fun.push_insn(block, Insn::StringIntern { val: v });
            state.push(Opnd::Insn(id));
            Ok(())
        },
        Opcode::NewArray => {
            let count = match get_arg(iseq, idx, 0) {
                Some(Word::Num(count)) => *count,
                _ => {
                    return Err(TranslateError::MalformedBytecode);
                },
            };
            let id = fun.push_insn(block, Insn::NewArray { count });
            let ghost st1 = st_emit(st, InsnV::NewArray { count }).0;
            proof {
                assert(TransSt { fun: fun@, state: state@, block } =~= st1);
                assert(id == st_emit(st, InsnV::NewArray { count }).1);
            }
            let mut k = count;
            while k > 0
                invariant
                    block.0 < fun@.blocks.len(),
                    fun@.blocks.len() == old(fun)@.blocks.len(),
                    k <= count,
                    newarray_sets(TransSt { fun: fun@, state: state@, block }, k as int)
                        == newarray_sets(st1, count as int),
                decreases k,
            {
                let ghost cur = TransSt { fun: fun@, state: state@, block };
                if state.stack.len() == 0 {
                    proof {
                        assert(newarray_sets(cur, k as int) == Err::<TransSt, TranslateError>(
                            TranslateError::StackUnderflow,
                        ));
                    }
                    return Err(TranslateError::StackUnderflow);
                }
                let v = state.pop();
                let ghost cur1 = (st_pop(cur)->Ok_0).1;
                proof {
                    assert(st_pop(cur) == Ok::<(Opnd, TransSt), TranslateError>((v, cur1)));
                    assert(TransSt { fun: fun@, state: state@, block } =~= cur1);
                }
                fun.push_insn(block, Insn::ArraySet { idx: k - 1, val: v });
                proof {
                    assert(TransSt { fun: fun@, state: state@, block } =~= st_emit(
                        cur1,
                        InsnV::ArraySet { idx: (k - 1) as usize, val: v },
                    ).0);
                    assert(newarray_sets(cur, k as int) == newarray_sets(
                        TransSt { fun: fun@, state: state@, block },
                        k - 1,
                    ));
                }
                k -= 1;
            }
            proof {
                assert(newarray_sets(TransSt { fun: fun@, state: state@, block }, 0) == Ok::<
                    TransSt,
                    TranslateError,
                >(TransSt { fun: fun@, state: state@, block }));
            }
            state.push(Opnd::Insn(id));
            proof {
                assert(TransSt { fun: fun@, state: state@, block } =~= st_push(
                    newarray_sets(st1, count as int)->Ok_0,
                    Opnd::Insn(id),
                ));
            }
            Ok(())
        },
        Opcode::PutObjectInt2Fix0 => {
            state.push(Opnd::Const(Value::fixnum_from_usize(0)));
            Ok(())
        },
        Opcode::PutObjectInt2Fix1 => {
            state.push(Opnd::Const(Value::fixnum_from_usize(1)));
            Ok(())
        },
        Opcode::SetLocalWc0 => {
            if state.stack.len() == 0 {
                return Err(TranslateError::StackUnderflow);
            }
            let v = state.pop();
            state.setlocal(0, v);
            Ok(())
        },
        Opcode::GetLocalWc0 => {
            let v = state.getlocal(0);
            state.push(v);
            Ok(())
        },
        Opcode::Defined => {
            let op_type = match get_arg(iseq, idx, 0) {
                Some(Word::Num(t)) => *t,
                _ => {
                    return Err(TranslateError::MalformedBytecode);
                },
            };
            let obj = match get_arg(iseq, idx, 1) {
                Some(Word::Val(v)) => *v,
                _ => {
                    return Err(TranslateError::MalformedBytecode);
                },
            };
            let pushval = match get_arg(iseq, idx, 2) {
                Some(Word::Val(v)) => *v,
                _ => {
                    return Err(TranslateError::MalformedBytecode);
                },
            };
            if state.stack.len() == 0 {
                return Err(TranslateError::StackUnderflow);
            }
            let v = state.pop();
            let id = fun.push_insn(block, Insn::Defined { op_type, obj, pushval, v });
            state.push(Opnd::Insn(id));
            Ok(())
        },
        Opcode::OptGetConstantPath => {
            let ic = match get_arg(iseq, idx, 0) {
                Some(Word::Num(ic)) => *ic,
                _ => {
                    return Err(TranslateError::MalformedBytecode);
                },
            };
            let id = fun.push_insn(block, Insn::GetConstantPath { ic });
            state.push(Opnd::Insn(id));
            Ok(())
        },
        Opcode::BranchUnless => {
            let off = match get_arg(iseq, idx, 0) {
                Some(Word::Off(off)) => *off,
                _ => {
                    return Err(TranslateError::MalformedBytecode);
                },
            };
            if state.stack.len() == 0 {
                return Err(TranslateError::StackUnderflow);
            }
            let val = state.pop();
            let ghost st1 = (st_pop(st)->Ok_0).1;
            proof {
                assert(st_pop(st) == Ok::<(Opnd, TransSt), TranslateError>((val, st1)));
                assert(TransSt { fun: fun@, state: state@, block } =~= st1);
            }
            let test_id = fun.push_insn(block, Insn::Test { val });
            let ghost st2 = st_emit(st1, InsnV::Test { val }).0;
            proof {
                assert(TransSt { fun: fun@, state: state@, block } =~= st2);
            }
            // The offset argument exists, so the word after the branch
            // is still within the body, and its offset fits a machine
            // word.
            let nn = iseq.words.len();
            assert(idx + 2 <= nn);
            let t = match insn_idx_at_offset(idx + 2, off) {
                Some(t) => t,
                None => {
                    return Err(TranslateError::MissingBlock);
                },
            };
            let tn = targets.len();
            let fi = match find_target(targets, t) {
                Some(fi) => fi,
                None => {
                    return Err(TranslateError::MissingBlock);
                },
            };
            proof {
                lemma_find_idx(ts, t);
                assert(fi < tn);
                assert(st2.fun.blocks.len() == st.fun.blocks.len());
                assert(fun@.blocks.len() == old(fun)@.blocks.len());
            }
            fun.push_insn(
                block,
                Insn::IfFalse {
                    val: Opnd::Insn(test_id),
                    target: BranchEdge { target: BlockId(1 + fi), args: Vec::new() },
                },
            );
            proof {
                assert(TransSt { fun: fun@, state: state@, block } =~= st_emit(
                    st2,
                    InsnV::IfFalse {
                        val: Opnd::Insn(test_id),
                        target: BranchEdgeV {
                            target: BlockId((1 + find_idx(ts, t)) as usize),
                            args: Seq::empty(),
                        },
                    },
                ).0);
            }
            Ok(())
        },
        Opcode::OptNilP => {
            if state.stack.len() == 0 {
                return Err(TranslateError::StackUnderflow);
            }
            let recv = state.pop();
            let id = fun.push_insn(
                block,
                Insn::Send {
                    self_val: recv,
                    call_info: CallInfo { name: name_string("nil?") },
                    args: Vec::new(),
                },
            );
            state.push(Opnd::Insn(id));
            Ok(())
        },
        Opcode::Pop => {
            if state.stack.len() == 0 {
                return Err(TranslateError::StackUnderflow);
            }
            state.pop();
            Ok(())
        },
        Opcode::Dup => {
            if state.stack.len() == 0 {
                return Err(TranslateError::StackUnderflow);
            }
            let top = state.top();
            state.push(top);
            Ok(())
        },
        Opcode::Swap => {
            if state.stack.len() == 0 {
                return Err(TranslateError::StackUnderflow);
            }
            let right = state.pop();
            if state.stack.len() == 0 {
                return Err(TranslateError::StackUnderflow);
            }
            let left = state.pop();
            state.push(right);
            state.push(left);
            Ok(())
        },
        Opcode::OptPlus => {
            // The receiver is the first pop: the topmost operand.
            if state.stack.len() == 0 {
                return Err(TranslateError::StackUnderflow);
            }
            let v0 = state.pop();
            if state.stack.len() == 0 {
                return Err(TranslateError::StackUnderflow);
            }
            let v1 = state.pop();
            let mut args: Vec<Opnd> = Vec::new();
            args.push(v1);
            let id = fun.push_insn(
                block,
                Insn::Send {
                    self_val: v0,
                    call_info: CallInfo { name: name_string("+") },
                    args,
                },
            );
            state.push(Opnd::Insn(id));
            proof {
                assert(seq![v1] =~= Seq::<Opnd>::empty().push(v1));
            }
            Ok(())
        },
        Opcode::OptLt => {
            if state.stack.len() == 0 {
                return Err(TranslateError::StackUnderflow);
            }
            let v0 = state.pop();
            if state.stack.len() == 0 {
                return Err(TranslateError::StackUnderflow);
            }
            let v1 = state.pop();
            let mut args: Vec<Opnd> = Vec::new();
            args.push(v1);
            let id = fun.push_insn(
                block,
                Insn::Send {
                    self_val: v0,
                    call_info: CallInfo { name: name_string("<") },
                    args,
                },
            );
            state.push(Opnd::Insn(id));
            proof {
                assert(seq![v1] =~= Seq::<Opnd>::empty().push(v1));
            }
            Ok(())
        },
        Opcode::Leave => {
            if state.stack.len() == 0 {
                return Err(TranslateError::StackUnderflow);
            }
            let val = state.pop();
            fun.push_insn(block, Insn::Return { val });
            Ok(())
        },
        Opcode::OptSendWithoutBlock => {
            let (name, argc) = match get_arg(iseq, idx, 0) {
                Some(Word::Call { method_name, argc }) => (method_name, *argc),
                _ => {
                    return Err(TranslateError::MalformedBytecode);
                },
            };
            // Only argument-less dispatch is lowered so far; any other
            // shape abandons the attempt explicitly.
            if argc != 0 {
                return Err(TranslateError::UnsupportedCallArgs);
            }
            if state.stack.len() == 0 {
                return Err(TranslateError::StackUnderflow);
            }
            let recv = state.pop();
            let id = fun.push_insn(
                block,
                Insn::Send {
                    self_val: recv,
                    call_info: CallInfo { name: name.clone() },
                    args: Vec::new(),
                },
            );
            state.push(Opnd::Insn(id));
            Ok(())
        },
        Opcode::Jump | Opcode::BranchIf | Opcode::BranchNil => match mode {
            UnknownHandling::Skip => Ok(()),
            UnknownHandling::Reject => Err(TranslateError::UnknownOpcode),
        },
    }
}

/// A method body that pushes nil and returns it.
pub open spec fn nil_method() -> Seq<WordV> {
    seq![WordV::Op(Opcode::PutNil), WordV::Op(Opcode::Leave)]
}

/// A method body that pushes one constant and returns it.
pub open spec fn const_method(k: Value) -> Seq<WordV> {
    seq![WordV::Op(Opcode::PutObject), WordV::Val(k), WordV::Op(Opcode::Leave)]
}

/// Translating identical bytecode yields structurally identical
/// functions: the translation is a function of the method body alone,
/// so two runs of [`iseq_to_ssa`] over equal bodies return equal
/// results.
pub proof fn lemma_translate_deterministic(
    handle: u64,
    code1: Seq<WordV>,
    code2: Seq<WordV>,
    mode: UnknownHandling,
)
    requires
        code1 == code2,
    ensures
        spec_translate(handle, code1, mode) == spec_translate(handle, code2, mode),
{
}

/// A method of push-nil, return translates to two snapshots and a
/// return whose simulated result is the nil constant.
pub proof fn lemma_putnil_leave_returns_nil(handle: u64, mode: UnknownHandling)
    ensures
        spec_translate(handle, nil_method(), mode) is Ok,
        spec_translate(handle, nil_method(), mode)->Ok_0.insns.len() == 3,
        spec_translate(handle, nil_method(), mode)->Ok_0.insns.last() == (InsnV::Return {
            val: Opnd::Const(Value::spec_nil()),
        }),
        forall|i: int|
            0 <= i < 2 ==> spec_translate(handle, nil_method(), mode)->Ok_0.insns[i] is Snapshot,
{
    let code = nil_method();
    reveal_with_fuel(scan_targets, 4);
    reveal_with_fuel(tr_from, 4);
    assert(spec_opcode_at(code, 0) == Some(Opcode::PutNil));
    assert(spec_opcode_at(code, 1) == Some(Opcode::Leave));
    assert(scan_targets(code, 0, Seq::empty()) == Ok::<Seq<usize>, TranslateError>(
        Seq::empty(),
    ));
    let st0 = init_st(handle, 0);
    assert(find_idx(Seq::<usize>::empty(), 0) == -1);
    assert(find_idx(Seq::<usize>::empty(), 1) == -1);
    assert(spec_translate(handle, code, mode) == tr_from(code, Seq::empty(), st0, 0, mode));
    assert(spec_translate(handle, code, mode) is Ok);
}

/// A method of push-constant K, return translates to two snapshots
/// and a return whose simulated result is K.
pub proof fn lemma_putobject_leave_returns_const(handle: u64, k: Value, mode: UnknownHandling)
    ensures
        spec_translate(handle, const_method(k), mode) is Ok,
        spec_translate(handle, const_method(k), mode)->Ok_0.insns.len() == 3,
        spec_translate(handle, const_method(k), mode)->Ok_0.insns.last() == (InsnV::Return {
            val: Opnd::Const(k),
        }),
        forall|i: int|
            0 <= i < 2 ==> spec_translate(handle, const_method(k), mode)->Ok_0.insns[
                i
            ] is Snapshot,
{
    let code = const_method(k);
    reveal_with_fuel(scan_targets, 4);
    reveal_with_fuel(tr_from, 4);
    assert(spec_opcode_at(code, 0) == Some(Opcode::PutObject));
    assert(spec_arg_at(code, 0, 0) == Some(WordV::Val(k)));
    assert(spec_opcode_at(code, 2) == Some(Opcode::Leave));
    assert(scan_targets(code, 0, Seq::empty()) == Ok::<Seq<usize>, TranslateError>(
        Seq::empty(),
    ));
    let st0 = init_st(handle, 0);
    assert(find_idx(Seq::<usize>::empty(), 0) == -1);
    assert(find_idx(Seq::<usize>::empty(), 2) == -1);
    assert(spec_translate(handle, code, mode) == tr_from(code, Seq::empty(), st0, 0, mode));
    assert(spec_translate(handle, code, mode) is Ok);
}

/// Argument words are present and of the right kind for one
/// instruction, with only the argument-less dispatch shape.
pub open spec fn args_ok(code: Seq<WordV>, idx: int, op: Opcode) -> bool {
    match op {
        Opcode::PutObject | Opcode::PutString => spec_arg_at(code, idx, 0) matches Some(
            WordV::Val(_),
        ),
        Opcode::NewArray | Opcode::OptGetConstantPath => spec_arg_at(code, idx, 0) matches Some(
            WordV::Num(_),
        ),
        Opcode::Defined => spec_arg_at(code, idx, 0) matches Some(WordV::Num(_)) && spec_arg_at(
            code,
            idx,
            1,
        ) matches Some(WordV::Val(_)) && spec_arg_at(code, idx, 2) matches Some(WordV::Val(_)),
        Opcode::OptSendWithoutBlock => spec_arg_at(code, idx, 0) matches Some(WordV::Call {
            method_name: _,
            argc: 0usize,
        }),
        _ => true,
    }
}

/// A well-formed straight-line (branch-free) run of instructions from
/// boundary `idx` to the end of the body.
pub open spec fn wf_straight(code: Seq<WordV>, idx: int) -> bool
    decreases code.len() - idx,
{
    if idx < 0 || idx >= code.len() {
        true
    } else {
        match spec_opcode_at(code, idx) {
            None => false,
            Some(op) => {
                let next = idx + spec_insn_len(op);
                let cont = if next > code.len() {
                    code.len() as int
                } else {
                    next
                };
                &&& !crate::targets::spec_is_branch(op)
                &&& args_ok(code, idx, op)
                &&& wf_straight(code, cont)
            },
        }
    }
}

/// How many operands the instruction at `idx` reads off the simulated
/// stack before it produces anything (its minimum required depth).
pub open spec fn op_need(code: Seq<WordV>, idx: int, op: Opcode) -> int {
    match op {
        Opcode::Intern | Opcode::SetLocalWc0 | Opcode::Defined | Opcode::OptNilP | Opcode::Pop
            | Opcode::Dup | Opcode::Leave | Opcode::OptSendWithoutBlock => 1,
        Opcode::Swap | Opcode::OptPlus | Opcode::OptLt => 2,
        Opcode::NewArray => match spec_arg_at(code, idx, 0) {
            Some(WordV::Num(count)) => count as int,
            _ => 0,
        },
        _ => 0,
    }
}

/// The net change the instruction at `idx` makes to the simulated
/// stack depth: pushes minus pops.
pub open spec fn op_delta(code: Seq<WordV>, idx: int, op: Opcode) -> int {
    match op {
        Opcode::PutNil | Opcode::PutObject | Opcode::PutString | Opcode::PutObjectInt2Fix0
            | Opcode::PutObjectInt2Fix1 | Opcode::GetLocalWc0 | Opcode::OptGetConstantPath
            | Opcode::Dup => 1,
        Opcode::Nop | Opcode::Intern | Opcode::Defined | Opcode::OptNilP | Opcode::Swap
            | Opcode::OptSendWithoutBlock => 0,
        Opcode::SetLocalWc0 | Opcode::Pop | Opcode::Leave | Opcode::OptPlus | Opcode::OptLt => -1,
        Opcode::NewArray => 1 - op_need(code, idx, op),
        Opcode::Jump | Opcode::BranchIf | Opcode::BranchUnless | Opcode::BranchNil => 0,
    }
}

/// The stack-balance scan of a straight-line run: at every
/// instruction, the pops it accounts for must not exceed the pushes
/// accounted so far (the running depth).
pub open spec fn balanced_from(code: Seq<WordV>, idx: int, depth: int) -> bool
    decreases code.len() - idx,
{
    if idx < 0 || idx >= code.len() {
        true
    } else {
        match spec_opcode_at(code, idx) {
            None => true,
            Some(op) => {
                let next = idx + spec_insn_len(op);
                let cont = if next > code.len() {
                    code.len() as int
                } else {
                    next
                };
                &&& op_need(code, idx, op) <= depth
                &&& balanced_from(code, cont, depth + op_delta(code, idx, op))
            },
        }
    }
}

/// The element-assignment run of array construction pops exactly `k`
/// operands when they are there, and raises the underflow failure when
/// they are not.
proof fn lemma_newarray_sets_len(st: TransSt, k: int)
    requires
        k >= 0,
    ensures
        st.state.stack.len() >= k ==> newarray_sets(st, k) is Ok && newarray_sets(
            st,
            k,
        )->Ok_0.state.stack.len() == st.state.stack.len() - k,
        st.state.stack.len() < k ==> newarray_sets(st, k) == Err::<TransSt, TranslateError>(
            TranslateError::StackUnderflow,
        ),
    decreases k,
{
    if k > 0 {
        if st.state.stack.len() > 0 {
            let st1 = (st_pop(st)->Ok_0).1;
            let v = (st_pop(st)->Ok_0).0;
            let st2 = st_emit(st1, InsnV::ArraySet { idx: (k - 1) as usize, val: v }).0;
            lemma_newarray_sets_len(st2, k - 1);
        }
    }
}

/// Stack balance: for a well-formed straight-line run, translation
/// succeeds exactly when the pops every instruction accounts for are
/// covered by the pushes accounted before it; when the accounting is
/// violated, the failure raised is the stack underflow of the
/// simulator — never a silently wrong function.
///
/// In particular, a run whose final return leaves the accounting at
/// pushes equal to pops plus one translates without underflow, and any
/// run that over-pops is answered with `StackUnderflow`.
pub proof fn lemma_stack_balance(
    code: Seq<WordV>,
    targets: Seq<usize>,
    st: TransSt,
    idx: int,
    mode: UnknownHandling,
)
    requires
        wf_straight(code, idx),
    ensures
        balanced_from(code, idx, st.state.stack.len() as int) <==> tr_from(
            code,
            targets,
            st,
            idx,
            mode,
        ) is Ok,
        !balanced_from(code, idx, st.state.stack.len() as int) ==> tr_from(
            code,
            targets,
            st,
            idx,
            mode,
        ) == Err::<FunctionV, TranslateError>(TranslateError::StackUnderflow),
    decreases code.len() - idx,
{
    if idx < 0 || idx >= code.len() {
    } else {
        let op = spec_opcode_at(code, idx)->Some_0;
        let next = idx + spec_insn_len(op);
        let cont = if next > code.len() {
            code.len() as int
        } else {
            next
        };
        let fi = find_idx(targets, idx as usize);
        let st_b = if fi >= 0 {
            TransSt { block: BlockId((1 + fi) as usize), ..st }
        } else {
            st
        };
        let st_pc = TransSt { state: FrameV { pc: idx as usize, ..st_b.state }, ..st_b };
        let st_s = st_emit(st_pc, InsnV::Snapshot { state: st_pc.state }).0;
        let depth = st.state.stack.len() as int;
        assert(st_s.state.stack.len() == depth);
        match step_insn(code, targets, st_s, idx, next, op, mode) {
            Ok(st2) => {
                if op is NewArray {
                    let count = op_need(code, idx, op);
                    let st1 = st_emit(st_s, InsnV::NewArray { count: count as usize }).0;
                    lemma_newarray_sets_len(st1, count);
                }
                assert(op_need(code, idx, op) <= depth);
                assert(st2.state.stack.len() == depth + op_delta(code, idx, op));
                lemma_stack_balance(code, targets, st2, cont, mode);
            },
            Err(e) => {
                if op is NewArray {
                    let count = op_need(code, idx, op);
                    let st1 = st_emit(st_s, InsnV::NewArray { count: count as usize }).0;
                    lemma_newarray_sets_len(st1, count);
                }
                assert(e == TranslateError::StackUnderflow);
                assert(op_need(code, idx, op) > depth);
            },
        }
    }
}

/// Each value as an immediate-constant operand.
pub open spec fn consts(vs: Seq<Value>) -> Seq<Opnd> {
    vs.map_values(|v: Value| Opnd::Const(v))
}

/// A run of push-constant instructions, one per value.
pub open spec fn push_run(vs: Seq<Value>) -> Seq<WordV> {
    Seq::new(
        (2 * vs.len()) as nat,
        |i: int|
            if i % 2 == 0 {
                WordV::Op(Opcode::PutObject)
            } else {
                WordV::Val(vs[i / 2])
            },
    )
}

/// A method body that pushes `vs` in order, gathers them into one
/// array, and returns it.
pub open spec fn newarray_method(vs: Seq<Value>) -> Seq<WordV> {
    push_run(vs) + seq![
        WordV::Op(Opcode::NewArray),
        WordV::Num(vs.len() as usize),
        WordV::Op(Opcode::Leave),
    ]
}

/// The shape of one push-constant instruction at boundary `2*jj`.
pub open spec fn pushes_shape(code: Seq<WordV>, vs: Seq<Value>, jj: int) -> bool {
    code[2 * jj] == WordV::Op(Opcode::PutObject) && code[2 * jj + 1] == WordV::Val(vs[jj])
}

/// The translator's state after the first `j` push-constant
/// instructions: one snapshot emitted and one constant pushed per
/// instruction.
pub open spec fn putobj_st(st0: TransSt, vs: Seq<Value>, j: int) -> TransSt
    decreases j,
{
    if j <= 0 {
        st0
    } else {
        let prev = putobj_st(st0, vs, j - 1);
        let pcst = TransSt {
            state: FrameV { pc: (2 * (j - 1)) as usize, ..prev.state },
            ..prev
        };
        let snap = st_emit(pcst, InsnV::Snapshot { state: pcst.state }).0;
        st_push(snap, Opnd::Const(vs[j - 1]))
    }
}

/// What the push-constant run leaves behind: one instruction per push
/// in the flat table, the constants on the simulated stack in push
/// order, and everything else untouched.
proof fn lemma_putobj_st_props(st0: TransSt, vs: Seq<Value>, j: int)
    requires
        0 <= j <= vs.len(),
        st0.block.0 < st0.fun.blocks.len(),
    ensures
        putobj_st(st0, vs, j).fun.insns.len() == st0.fun.insns.len() + j,
        putobj_st(st0, vs, j).fun.blocks.len() == st0.fun.blocks.len(),
        putobj_st(st0, vs, j).fun.iseq == st0.fun.iseq,
        putobj_st(st0, vs, j).fun.entry_block == st0.fun.entry_block,
        putobj_st(st0, vs, j).block == st0.block,
        putobj_st(st0, vs, j).state.stack == st0.state.stack + consts(vs.take(j)),
        putobj_st(st0, vs, j).state.locals == st0.state.locals,
    decreases j,
{
    if j == 0 {
        assert(st0.state.stack + consts(vs.take(0)) =~= st0.state.stack);
    } else {
        lemma_putobj_st_props(st0, vs, j - 1);
        assert(putobj_st(st0, vs, j).state.stack =~= st0.state.stack + consts(vs.take(j)));
    }
}

/// Translating the push-constant run carries the scan from its start
/// to the instruction after it.
proof fn lemma_tr_putobjects(
    code: Seq<WordV>,
    st0: TransSt,
    vs: Seq<Value>,
    j: int,
    mode: UnknownHandling,
)
    requires
        0 <= j <= vs.len(),
        2 * vs.len() <= code.len(),
        code.len() <= usize::MAX,
        st0.block.0 < st0.fun.blocks.len(),
        forall|jj: int| 0 <= jj < vs.len() ==> #[trigger] pushes_shape(code, vs, jj),
    ensures
        tr_from(code, Seq::empty(), putobj_st(st0, vs, j), 2 * j, mode) == tr_from(
            code,
            Seq::empty(),
            putobj_st(st0, vs, vs.len() as int),
            2 * (vs.len() as int),
            mode,
        ),
    decreases vs.len() - j,
{
    if j < vs.len() {
        let st = putobj_st(st0, vs, j);
        assert(pushes_shape(code, vs, j));
        assert(code[2 * j] == WordV::Op(Opcode::PutObject));
        assert(spec_opcode_at(code, 2 * j) == Some(Opcode::PutObject));
        assert(spec_arg_at(code, 2 * j, 0) == Some(WordV::Val(vs[j])));
        assert(find_idx(Seq::<usize>::empty(), (2 * j) as usize) == -1);
        assert(tr_from(code, Seq::empty(), st, 2 * j, mode) == tr_from(
            code,
            Seq::empty(),
            putobj_st(st0, vs, j + 1),
            2 * j + 2,
            mode,
        ));
        lemma_tr_putobjects(code, st0, vs, j + 1, mode);
    }
}

/// The scan of the push-constant run records nothing.
proof fn lemma_scan_putobjects(code: Seq<WordV>, vs: Seq<Value>, j: int, acc: Seq<usize>)
    requires
        0 <= j <= vs.len(),
        2 * vs.len() <= code.len(),
        forall|jj: int| 0 <= jj < vs.len() ==> #[trigger] pushes_shape(code, vs, jj),
    ensures
        scan_targets(code, 2 * j, acc) == scan_targets(code, 2 * (vs.len() as int), acc),
    decreases vs.len() - j,
{
    if j < vs.len() {
        assert(pushes_shape(code, vs, j));
        assert(code[2 * j] == WordV::Op(Opcode::PutObject));
        assert(spec_opcode_at(code, 2 * j) == Some(Opcode::PutObject));
        lemma_scan_putobjects(code, vs, j + 1, acc);
    }
}

/// The element assignments array construction emits, in emission
/// order: indices counted down from the element count, each carrying
/// the constant pushed for that index.
pub open spec fn arraysets(vs: Seq<Value>) -> Seq<InsnV> {
    Seq::new(
        vs.len(),
        |m: int| InsnV::ArraySet {
            idx: (vs.len() - 1 - m) as usize,
            val: Opnd::Const(vs[vs.len() - 1 - m]),
        },
    )
}

/// Array construction pops its operands last-in-first-out and emits
/// the element assignments in reverse index order, re-associating the
/// values positionally.
proof fn lemma_newarray_sets_shape(st: TransSt, pre: Seq<Opnd>, vs: Seq<Value>)
    requires
        vs.len() <= usize::MAX,
        st.block.0 < st.fun.blocks.len(),
        st.state.stack == pre + consts(vs),
    ensures
        newarray_sets(st, vs.len() as int) is Ok,
        newarray_sets(st, vs.len() as int)->Ok_0.fun.insns == st.fun.insns + arraysets(vs),
        newarray_sets(st, vs.len() as int)->Ok_0.fun.blocks.len() == st.fun.blocks.len(),
        newarray_sets(st, vs.len() as int)->Ok_0.fun.iseq == st.fun.iseq,
        newarray_sets(st, vs.len() as int)->Ok_0.fun.entry_block == st.fun.entry_block,
        newarray_sets(st, vs.len() as int)->Ok_0.block == st.block,
        newarray_sets(st, vs.len() as int)->Ok_0.state.stack == pre,
        newarray_sets(st, vs.len() as int)->Ok_0.state.locals == st.state.locals,
        newarray_sets(st, vs.len() as int)->Ok_0.state.pc == st.state.pc,
    decreases vs.len(),
{
    let k = vs.len() as int;
    if k == 0 {
        assert(st.fun.insns + arraysets(vs) =~= st.fun.insns);
        assert(pre + consts(vs) =~= pre);
    } else {
        assert(st.state.stack.len() == pre.len() + k);
        assert(st.state.stack.last() == consts(vs).last());
        assert(consts(vs).last() == Opnd::Const(vs[k - 1]));
        let v = st.state.stack.last();
        let st1 = (st_pop(st)->Ok_0).1;
        assert(st1.state.stack =~= pre + consts(vs.take(k - 1)));
        let st2 = st_emit(st1, InsnV::ArraySet { idx: (k - 1) as usize, val: v }).0;
        lemma_newarray_sets_shape(st2, pre, vs.take(k - 1));
        assert(newarray_sets(st, k) == newarray_sets(st2, k - 1));
        assert(st2.fun.insns + arraysets(vs.take(k - 1)) =~= st.fun.insns + arraysets(vs)) by {
            assert(st2.fun.insns =~= st.fun.insns.push(
                InsnV::ArraySet { idx: (k - 1) as usize, val: Opnd::Const(vs[k - 1]) },
            ));
            assert(forall|m: int|
                0 <= m < k - 1 ==> #[trigger] arraysets(vs.take(k - 1))[m] == arraysets(vs)[m
                    + 1]);
        }
    }
}

/// Array construction, end to end: a method that pushes `v0..v(n-1)`
/// in order and gathers them with an array-construction instruction
/// translates to an IR holding one `NewArray` of count `n` followed by
/// `n` element assignments with indices `n-1` down to `0`, where the
/// assignment for index `i` carries `v_i`.
#[verifier::rlimit(100)]
#[verifier::spinoff_prover]
pub proof fn lemma_newarray_method_shape(handle: u64, vs: Seq<Value>, mode: UnknownHandling)
    requires
        2 * vs.len() + 3 <= usize::MAX,
    ensures
        spec_translate(handle, newarray_method(vs), mode) is Ok,
        spec_translate(handle, newarray_method(vs), mode)->Ok_0.insns.len() == 2 * vs.len() + 4,
        spec_translate(handle, newarray_method(vs), mode)->Ok_0.insns[vs.len() as int + 1] == (
        InsnV::NewArray { count: vs.len() as usize }),
        forall|i: int|
            0 <= i < vs.len() ==> spec_translate(handle, newarray_method(vs), mode)->Ok_0.insns[
                vs.len() + 2 + (vs.len() - 1 - i)
            ] == (InsnV::ArraySet { idx: i as usize, val: (Opnd::Const(vs[i])) }),
{
    let code = newarray_method(vs);
    let n = vs.len() as int;
    assert(code.len() == 2 * n + 3);
    assert forall|jj: int| 0 <= jj < n implies #[trigger] pushes_shape(code, vs, jj) by {
        assert(code[2 * jj] == push_run(vs)[2 * jj]);
        assert(code[2 * jj + 1] == push_run(vs)[2 * jj + 1]);
    }
    assert(code[2 * n] == WordV::Op(Opcode::NewArray));
    assert(code[2 * n + 1] == WordV::Num(vs.len() as usize));
    assert(code[2 * n + 2] == WordV::Op(Opcode::Leave));
    assert(spec_opcode_at(code, 2 * n) == Some(Opcode::NewArray));
    assert(spec_arg_at(code, 2 * n, 0) == Some(WordV::Num(vs.len() as usize)));
    assert(spec_opcode_at(code, 2 * n + 2) == Some(Opcode::Leave));

    // Discovery records nothing: no branches, and the return is last.
    lemma_scan_putobjects(code, vs, 0, Seq::empty());
    reveal_with_fuel(scan_targets, 3);
    assert(scan_targets(code, 0, Seq::empty()) == Ok::<Seq<usize>, TranslateError>(Seq::empty()));

    // The push run.
    let st0 = init_st(handle, 0);
    assert(putobj_st(st0, vs, 0) == st0);
    lemma_tr_putobjects(code, st0, vs, 0, mode);
    let stn = putobj_st(st0, vs, n);
    lemma_putobj_st_props(st0, vs, n);
    assert(stn.state.stack =~= consts(vs)) by {
        assert(vs.take(n) =~= vs);
        assert(Seq::<Opnd>::empty() + consts(vs) =~= consts(vs));
    }
    assert(stn.fun.insns.len() == n);
    assert(spec_translate(handle, code, mode) == tr_from(code, Seq::empty(), stn, 2 * n, mode));

    // The array-construction boundary.
    assert(find_idx(Seq::<usize>::empty(), (2 * n) as usize) == -1);
    let st_pc = TransSt { state: FrameV { pc: (2 * n) as usize, ..stn.state }, ..stn };
    let st_s = st_emit(st_pc, InsnV::Snapshot { state: st_pc.state }).0;
    let newarray_insn = InsnV::NewArray { count: vs.len() as usize };
    let st1 = st_emit(st_s, newarray_insn).0;
    let id = st_emit(st_s, newarray_insn).1;
    assert(id == InsnId((n + 1) as usize));
    assert(st1.state.stack =~= Seq::<Opnd>::empty() + consts(vs));
    lemma_newarray_sets_shape(st1, Seq::empty(), vs);
    let st2 = newarray_sets(st1, n)->Ok_0;
    let st3 = st_push(st2, Opnd::Insn(id));
    assert(step_insn(code, Seq::empty(), st_s, 2 * n, 2 * n + 2, Opcode::NewArray, mode) == Ok::<
        TransSt,
        TranslateError,
    >(st3));
    reveal_with_fuel(tr_from, 3);
    assert(tr_from(code, Seq::empty(), stn, 2 * n, mode) == tr_from(
        code,
        Seq::empty(),
        st3,
        2 * n + 2,
        mode,
    ));

    // The return boundary.
    assert(find_idx(Seq::<usize>::empty(), (2 * n + 2) as usize) == -1);
    assert(st3.state.stack.len() == 1);
    let st_pc2 = TransSt { state: FrameV { pc: (2 * n + 2) as usize, ..st3.state }, ..st3 };
    let st_s2 = st_emit(st_pc2, InsnV::Snapshot { state: st_pc2.state }).0;
    let st4 = (st_pop(st_s2)->Ok_0).1;
    let st5 = st_emit(st4, InsnV::Return { val: Opnd::Insn(id) }).0;
    assert(step_insn(code, Seq::empty(), st_s2, 2 * n + 2, 2 * n + 3, Opcode::Leave, mode)
        == Ok::<TransSt, TranslateError>(st5));
    assert(tr_from(code, Seq::empty(), st3, 2 * n + 2, mode) == tr_from(
        code,
        Seq::empty(),
        st5,
        2 * n + 3,
        mode,
    ));
    assert(tr_from(code, Seq::empty(), st5, 2 * n + 3, mode) == Ok::<FunctionV, TranslateError>(
        st5.fun,
    ));

    // Read the claims off the final instruction table.
    let f = st5.fun;
    assert(f.insns =~= stn.fun.insns + seq![InsnV::Snapshot { state: st_pc.state }, newarray_insn]
        + arraysets(vs) + seq![
        InsnV::Snapshot { state: st_pc2.state },
        InsnV::Return { val: Opnd::Insn(id) },
    ]) by {
        assert(st2.fun.insns == st1.fun.insns + arraysets(vs));
        assert(st1.fun.insns =~= stn.fun.insns + seq![
            InsnV::Snapshot { state: st_pc.state },
            newarray_insn,
        ]);
    }
    assert(f.insns.len() == 2 * n + 4);
    assert(f.insns[n + 1] == newarray_insn);
    assert forall|i: int|
        0 <= i < n implies f.insns[n + 2 + (n - 1 - i)] == (InsnV::ArraySet {
        idx: i as usize,
        val: Opnd::Const(vs[i]),
    }) by {
        assert(arraysets(vs)[n - 1 - i] == (InsnV::ArraySet {
            idx: i as usize,
            val: Opnd::Const(vs[i]),
        }));
        assert(f.insns[n + 2 + (n - 1 - i)] == arraysets(vs)[n - 1 - i]);
    }
}

/// The element-assignment run preserves well-formedness of the
/// function under construction.
proof fn lemma_newarray_sets_wf(st: TransSt, k: int)
    requires
        crate::ir::fv_wf(st.fun),
        st.block.0 < st.fun.blocks.len(),
    ensures
        newarray_sets(st, k) is Ok ==> {
            &&& crate::ir::fv_wf(newarray_sets(st, k)->Ok_0.fun)
            &&& newarray_sets(st, k)->Ok_0.block == st.block
            &&& newarray_sets(st, k)->Ok_0.fun.blocks.len() == st.fun.blocks.len()
        },
    decreases k,
{
    broadcast use crate::ir::lemma_push_insn_wf_auto;

    if k > 0 {
        match st_pop(st) {
            Err(_) => {},
            Ok((v, st1)) => {
                let st2 = st_emit(st1, InsnV::ArraySet { idx: (k - 1) as usize, val: v }).0;
                lemma_newarray_sets_wf(st2, k - 1);
            },
        }
    }
}

/// One dispatched operation preserves well-formedness of the function
/// under construction, and never moves to another block.
proof fn lemma_step_insn_wf(
    code: Seq<WordV>,
    targets: Seq<usize>,
    st: TransSt,
    idx: int,
    next: int,
    op: Opcode,
    mode: UnknownHandling,
)
    requires
        crate::ir::fv_wf(st.fun),
        st.block.0 < st.fun.blocks.len(),
    ensures
        step_insn(code, targets, st, idx, next, op, mode) is Ok ==> {
            &&& crate::ir::fv_wf(step_insn(code, targets, st, idx, next, op, mode)->Ok_0.fun)
            &&& step_insn(code, targets, st, idx, next, op, mode)->Ok_0.block == st.block
            &&& step_insn(code, targets, st, idx, next, op, mode)->Ok_0.fun.blocks.len()
                == st.fun.blocks.len()
        },
{
    broadcast use crate::ir::lemma_push_insn_wf_auto;

    match op {
        Opcode::NewArray => match spec_arg_at(code, idx, 0) {
            Some(WordV::Num(count)) => {
                let st1 = st_emit(st, InsnV::NewArray { count }).0;
                lemma_newarray_sets_wf(st1, count as int);
            },
            _ => {},
        },
        _ => {},
    }
}

/// The translation scan preserves well-formedness: every instruction
/// id a block records points into the flat table.
proof fn lemma_tr_from_wf(
    code: Seq<WordV>,
    targets: Seq<usize>,
    st: TransSt,
    idx: int,
    mode: UnknownHandling,
)
    requires
        crate::ir::fv_wf(st.fun),
        st.block.0 < st.fun.blocks.len(),
        st.fun.blocks.len() == targets.len() + 1,
    ensures
        tr_from(code, targets, st, idx, mode) is Ok ==> crate::ir::fv_wf(
            tr_from(code, targets, st, idx, mode)->Ok_0,
        ),
    decreases code.len() - idx,
{
    broadcast use crate::ir::lemma_push_insn_wf_auto;

    if idx < 0 || idx >= code.len() {
    } else {
        let fi = find_idx(targets, idx as usize);
        lemma_find_idx(targets, idx as usize);
        let st_b = if fi >= 0 {
            TransSt { block: BlockId((1 + fi) as usize), ..st }
        } else {
            st
        };
        let st_pc = TransSt { state: FrameV { pc: idx as usize, ..st_b.state }, ..st_b };
        let st_s = st_emit(st_pc, InsnV::Snapshot { state: st_pc.state }).0;
        match spec_opcode_at(code, idx) {
            None => {},
            Some(op) => {
                let next = idx + spec_insn_len(op);
                let cont = if next > code.len() {
                    code.len() as int
                } else {
                    next
                };
                lemma_step_insn_wf(code, targets, st_s, idx, next, op, mode);
                match step_insn(code, targets, st_s, idx, next, op, mode) {
                    Err(_) => {},
                    Ok(st2) => {
                        lemma_tr_from_wf(code, targets, st2, cont, mode);
                    },
                }
            },
        }
    }
}

/// Whatever translation accepts is a well-formed function: its entry
/// designator and every recorded instruction id point into its
/// tables. This is what lets the printer walk the program.
pub proof fn lemma_translate_wf(handle: u64, code: Seq<WordV>, mode: UnknownHandling)
    ensures
        spec_translate(handle, code, mode) is Ok ==> crate::ir::fv_wf(
            spec_translate(handle, code, mode)->Ok_0,
        ),
{
    match scan_targets(code, 0, Seq::empty()) {
        Err(_) => {},
        Ok(ts) => {
            if !(ts.len() > 0 && ts[0] == 0) {
                let st0 = init_st(handle, ts.len() as int);
                assert(crate::ir::fv_wf(st0.fun));
                lemma_tr_from_wf(code, ts, st0, 0, mode);
            }
        },
    }
}

/// On the decoding path of a scanned body, the translator's block
/// lookup never fails: each step is either lowered or answered with a
/// failure other than the internal-consistency one.
#[verifier::rlimit(100)]
#[verifier::spinoff_prover]
proof fn lemma_tr_no_missing_block(
    code: Seq<WordV>,
    targets: Seq<usize>,
    st: TransSt,
    idx: int,
    mode: UnknownHandling,
)
    requires
        scan_targets(code, 0, Seq::empty()) == Ok::<Seq<usize>, TranslateError>(targets),
        reaches(code, 0, idx),
    ensures
        tr_from(code, targets, st, idx, mode) != Err::<FunctionV, TranslateError>(
            TranslateError::MissingBlock,
        ),
    decreases code.len() - idx,
{
    if idx < 0 || idx >= code.len() {
    } else {
        let fi = find_idx(targets, idx as usize);
        let st_b = if fi >= 0 {
            TransSt { block: BlockId((1 + fi) as usize), ..st }
        } else {
            st
        };
        let st_pc = TransSt { state: FrameV { pc: idx as usize, ..st_b.state }, ..st_b };
        let st_s = st_emit(st_pc, InsnV::Snapshot { state: st_pc.state }).0;
        match spec_opcode_at(code, idx) {
            None => {},
            Some(op) => {
                let next = idx + spec_insn_len(op);
                let cont = if next > code.len() {
                    code.len() as int
                } else {
                    next
                };
                if op == Opcode::BranchUnless {
                    lemma_scan_ok_branch_valid(code, 0, Seq::empty(), idx);
                    match spec_arg_at(code, idx, 0) {
                        Some(WordV::Off(off)) => {
                            let t = spec_insn_idx_at_offset(next as usize, off)->Some_0;
                            lemma_branch_target_member(code, 0, Seq::empty(), idx, t);
                            lemma_find_idx(targets, t);
                        },
                        _ => {},
                    }
                }
                if op == Opcode::NewArray {
                    match spec_arg_at(code, idx, 0) {
                        Some(WordV::Num(count)) => {
                            let st1 = st_emit(st_s, InsnV::NewArray { count }).0;
                            lemma_newarray_sets_len(st1, count as int);
                        },
                        _ => {},
                    }
                }
                match step_insn(code, targets, st_s, idx, next, op, mode) {
                    Err(e) => {
                        assert(e != TranslateError::MissingBlock);
                    },
                    Ok(st2) => {
                        lemma_reaches_step(code, 0, idx);
                        lemma_tr_no_missing_block(code, targets, st2, cont, mode);
                    },
                }
            },
        }
    }
}

/// The internal-consistency failure is unreachable: whatever one
/// method body holds, translation never answers with `MissingBlock`,
/// because discovery has established a block for every target the
/// translator can resolve.
pub proof fn lemma_translate_never_missing_block(
    handle: u64,
    code: Seq<WordV>,
    mode: UnknownHandling,
)
    ensures
        spec_translate(handle, code, mode) != Err::<FunctionV, TranslateError>(
            TranslateError::MissingBlock,
        ),
{
    match scan_targets(code, 0, Seq::empty()) {
        Err(e) => {
            lemma_scan_err_kind(code, 0, Seq::empty());
        },
        Ok(ts) => {
            if !(ts.len() > 0 && ts[0] == 0) {
                let st0 = init_st(handle, ts.len() as int);
                assert(reaches(code, 0, 0));
                lemma_tr_no_missing_block(code, ts, st0, 0, mode);
            }
        },
    }
}

/// An owned copy of a static method name.
fn name_string(s: &str) -> (r: String)
    ensures
        r@ == s@,
{
    s.to_owned()
}

} // verus!

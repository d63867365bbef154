//! The interpreter's linear, stack-based bytecode encoding for one method.
//!
//! A method's body is a sequence of fixed-width words. Each instruction
//! occupies one opcode word followed by an opcode-dependent number of
//! argument words; branch instructions carry an offset relative to the
//! word immediately after the branch instruction itself.

use vstd::prelude::*;
use crate::value::Value;

verus! {

/// The operations of the bytecode subset this translator understands.
/// `Jump`, `BranchIf` and `BranchNil` are recognised by control-flow
/// discovery but not yet lowered by the translator.
#[derive(Copy, Clone, PartialEq, Eq, Debug, Structural)]
pub enum Opcode {
    Nop,
    PutNil,
    PutObject,
    PutString,
    Intern,
    NewArray,
    PutObjectInt2Fix0,
    PutObjectInt2Fix1,
    SetLocalWc0,
    GetLocalWc0,
    Defined,
    OptGetConstantPath,
    Jump,
    BranchIf,
    BranchUnless,
    BranchNil,
    OptNilP,
    Pop,
    Dup,
    Swap,
    OptPlus,
    OptLt,
    Leave,
    OptSendWithoutBlock,
}

/// One encoded word of a method body: an opcode, or one argument word of
/// the instruction it follows.
#[derive(Clone, PartialEq, Debug)]
pub enum Word {
    /// An instruction's opcode word.
    Op(Opcode),
    /// An argument word holding a tagged value.
    Val(Value),
    /// An argument word holding a plain count or slot index.
    Num(usize),
    /// An argument word holding a branch offset, relative to the word
    /// after the branching instruction.
    Off(i64),
    /// An argument word describing a dynamic call site: the resolved
    /// method name and the number of call arguments.
    Call { method_name: String, argc: usize },
}

/// Mathematical image of a [`Word`].
#[verifier::ext_equal]
pub enum WordV {
    Op(Opcode),
    Val(Value),
    Num(usize),
    Off(i64),
    Call { method_name: Seq<char>, argc: usize },
}

impl View for Word {
    type V = WordV;

    open spec fn view(&self) -> WordV {
        match self {
            Word::Op(op) => WordV::Op(*op),
            Word::Val(v) => WordV::Val(*v),
            Word::Num(n) => WordV::Num(*n),
            Word::Off(o) => WordV::Off(*o),
            Word::Call { method_name, argc } => WordV::Call {
                method_name: method_name@,
                argc: *argc,
            },
        }
    }
}

/// One method's encoded body, together with the opaque handle that
/// identifies the method inside the interpreter's metadata.
#[derive(Clone, PartialEq, Debug)]
pub struct Iseq {
    pub handle: u64,
    pub words: Vec<Word>,
}

impl View for Iseq {
    type V = Seq<WordV>;

    open spec fn view(&self) -> Seq<WordV> {
        self.words@.map_values(|w: Word| w@)
    }
}

/// How many words an instruction with this opcode occupies, its opcode
/// word included.
pub open spec fn spec_insn_len(op: Opcode) -> int {
    match op {
        Opcode::Nop => 1,
        Opcode::PutNil => 1,
        Opcode::PutObject => 2,
        Opcode::PutString => 2,
        Opcode::Intern => 1,
        Opcode::NewArray => 2,
        Opcode::PutObjectInt2Fix0 => 1,
        Opcode::PutObjectInt2Fix1 => 1,
        Opcode::SetLocalWc0 => 1,
        Opcode::GetLocalWc0 => 1,
        Opcode::Defined => 4,
        Opcode::OptGetConstantPath => 2,
        Opcode::Jump => 2,
        Opcode::BranchIf => 2,
        Opcode::BranchUnless => 2,
        Opcode::BranchNil => 2,
        Opcode::OptNilP => 1,
        Opcode::Pop => 1,
        Opcode::Dup => 1,
        Opcode::Swap => 1,
        Opcode::OptPlus => 1,
        Opcode::OptLt => 1,
        Opcode::Leave => 1,
        Opcode::OptSendWithoutBlock => 2,
    }
}

pub fn insn_len(op: Opcode) -> (n: usize)
    ensures
        n == spec_insn_len(op),
{
    match op {
        Opcode::Nop => 1,
        Opcode::PutNil => 1,
        Opcode::PutObject => 2,
        Opcode::PutString => 2,
        Opcode::Intern => 1,
        Opcode::NewArray => 2,
        Opcode::PutObjectInt2Fix0 => 1,
        Opcode::PutObjectInt2Fix1 => 1,
        Opcode::SetLocalWc0 => 1,
        Opcode::GetLocalWc0 => 1,
        Opcode::Defined => 4,
        Opcode::OptGetConstantPath => 2,
        Opcode::Jump => 2,
        Opcode::BranchIf => 2,
        Opcode::BranchUnless => 2,
        Opcode::BranchNil => 2,
        Opcode::OptNilP => 1,
        Opcode::Pop => 1,
        Opcode::Dup => 1,
        Opcode::Swap => 1,
        Opcode::OptPlus => 1,
        Opcode::OptLt => 1,
        Opcode::Leave => 1,
        Opcode::OptSendWithoutBlock => 2,
    }
}

/// The opcode of the instruction that starts at word `idx`, if a
/// well-formed instruction starts there.
pub open spec fn spec_opcode_at(code: Seq<WordV>, idx: int) -> Option<Opcode> {
    if 0 <= idx < code.len() {
        match code[idx] {
            WordV::Op(op) => Some(op),
            _ => None,
        }
    } else {
        None
    }
}

/// Argument word `arg_idx` of the instruction that starts at word `idx`.
pub open spec fn spec_arg_at(code: Seq<WordV>, idx: int, arg_idx: int) -> Option<WordV> {
    if 0 <= idx && 0 <= arg_idx && idx + arg_idx + 1 < code.len() {
        Some(code[idx + arg_idx + 1])
    } else {
        None
    }
}

/// Get an instruction's argument word.
pub fn get_arg<'a>(iseq: &'a Iseq, idx: usize, arg_idx: usize) -> (w: Option<&'a Word>)
    ensures
        match w {
            Some(w) => spec_arg_at(iseq@, idx as int, arg_idx as int) == Some(w@),
            None => spec_arg_at(iseq@, idx as int, arg_idx as int) is None,
        },
{
    let n = iseq.words.len();
    if idx < n && arg_idx < n - idx - 1 {
        let w = &iseq.words[idx + arg_idx + 1];
        assert(iseq@[idx + arg_idx + 1] == w@);
        Some(w)
    } else {
        None
    }
}

/// Get the opcode word at an instruction boundary.
pub fn opcode_at(iseq: &Iseq, idx: usize) -> (r: Option<Opcode>)
    ensures
        r == spec_opcode_at(iseq@, idx as int),
{
    if idx < iseq.words.len() {
        let w = &iseq.words[idx];
        assert(iseq@[idx as int] == w@);
        match w {
            Word::Op(op) => Some(*op),
            _ => None,
        }
    } else {
        None
    }
}

/// The word offset a branch lands on: the offset of the word after the
/// branching instruction, plus the encoded relative offset. `None` when
/// the sum leaves the address space.
pub open spec fn spec_insn_idx_at_offset(idx: usize, offset: i64) -> Option<usize> {
    if 0 <= idx + offset <= usize::MAX {
        Some((idx + offset) as usize)
    } else {
        None
    }
}

pub fn insn_idx_at_offset(idx: usize, offset: i64) -> (r: Option<usize>)
    ensures
        r == spec_insn_idx_at_offset(idx, offset),
{
    let wide: i128 = idx as i128 + offset as i128;
    if wide < 0 || wide > usize::MAX as i128 {
        None
    } else {
        Some(wide as usize)
    }
}

} // verus!

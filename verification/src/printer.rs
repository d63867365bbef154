//! Textual dump of an SSA program: each block in id order, each
//! instruction rendered as `<id> = <mnemonic> <operands>`, with debug
//! snapshots elided by default.
//!
//! A diagnostic surface only: nothing downstream consumes the text.

use vstd::prelude::*;
use crate::ir::{
    BranchEdge, BranchEdgeV, FrameState, FrameV, Function, FunctionV, Insn, InsnId, InsnV, Opnd,
    fv_wf,
};
use crate::value::Value;
use vstd::string::StringExecFns;

verus! {

/// The decimal numeral of `n`, most significant digit first.
pub open spec fn dec_digits(n: nat) -> Seq<char>
    decreases n,
{
    if n < 10 {
        seq![digit_char(n)]
    } else {
        dec_digits(n / 10) + seq![digit_char(n % 10)]
    }
}

/// The lower-case hexadecimal numeral of `n`.
pub open spec fn hex_digits(n: nat) -> Seq<char>
    decreases n,
{
    if n < 16 {
        seq![digit_char(n)]
    } else {
        hex_digits(n / 16) + seq![digit_char(n % 16)]
    }
}

/// The character of one digit value, up to hexadecimal.
pub open spec fn digit_char(d: nat) -> char {
    if d == 0 {
        '0'
    } else if d == 1 {
        '1'
    } else if d == 2 {
        '2'
    } else if d == 3 {
        '3'
    } else if d == 4 {
        '4'
    } else if d == 5 {
        '5'
    } else if d == 6 {
        '6'
    } else if d == 7 {
        '7'
    } else if d == 8 {
        '8'
    } else if d == 9 {
        '9'
    } else if d == 10 {
        'a'
    } else if d == 11 {
        'b'
    } else if d == 12 {
        'c'
    } else if d == 13 {
        'd'
    } else if d == 14 {
        'e'
    } else {
        'f'
    }
}

/// One digit as text.
fn digit_label(d: u64) -> (r: &'static str)
    requires
        d < 16,
    ensures
        r@ == seq![digit_char(d as nat)],
{
    proof {
        reveal_strlit("0");
        reveal_strlit("1");
        reveal_strlit("2");
        reveal_strlit("3");
        reveal_strlit("4");
        reveal_strlit("5");
        reveal_strlit("6");
        reveal_strlit("7");
        reveal_strlit("8");
        reveal_strlit("9");
        reveal_strlit("a");
        reveal_strlit("b");
        reveal_strlit("c");
        reveal_strlit("d");
        reveal_strlit("e");
        reveal_strlit("f");
    }
    let r: &'static str = if d == 0 {
        "0"
    } else if d == 1 {
        "1"
    } else if d == 2 {
        "2"
    } else if d == 3 {
        "3"
    } else if d == 4 {
        "4"
    } else if d == 5 {
        "5"
    } else if d == 6 {
        "6"
    } else if d == 7 {
        "7"
    } else if d == 8 {
        "8"
    } else if d == 9 {
        "9"
    } else if d == 10 {
        "a"
    } else if d == 11 {
        "b"
    } else if d == 12 {
        "c"
    } else if d == 13 {
        "d"
    } else if d == 14 {
        "e"
    } else {
        "f"
    };
    proof {
        assert(r@ =~= seq![digit_char(d as nat)]);
    }
    r
}

/// Render a number in decimal.
pub fn print_dec(n: u64) -> (r: String)
    ensures
        r@ == dec_digits(n as nat),
    decreases n,
{
    if n < 10 {
        let r = digit_label(n).to_owned();
        proof {
            assert(r@ =~= dec_digits(n as nat));
        }
        r
    } else {
        let mut r = print_dec(n / 10);
        r.append(digit_label(n % 10));
        proof {
            assert(r@ =~= dec_digits(n as nat));
        }
        r
    }
}

/// Render a word in lower-case hexadecimal.
pub fn print_hex_u64(n: u64) -> (r: String)
    ensures
        r@ == hex_digits(n as nat),
    decreases n,
{
    if n < 16 {
        let r = digit_label(n).to_owned();
        proof {
            assert(r@ =~= hex_digits(n as nat));
        }
        r
    } else {
        let mut r = print_hex_u64(n / 16);
        r.append(digit_label(n % 16));
        proof {
            assert(r@ =~= hex_digits(n as nat));
        }
        r
    }
}

/// A tagged value rendered as text: a fixnum by its integer, anything
/// else by its raw bit pattern.
pub open spec fn spec_print_value(v: Value) -> Seq<char> {
    if v.spec_fixnum_p() {
        "Fixnum("@ + dec_digits(v.spec_as_fixnum() as nat) + ")"@
    } else {
        "Const(0x"@ + hex_digits(v.0 as nat) + ")"@
    }
}

pub fn print_value(v: Value) -> (r: String)
    ensures
        r@ == spec_print_value(v),
{
    if v.fixnum_p() {
        let mut r = String::from_str("Fixnum(");
        r.append(print_dec(v.as_fixnum()).as_str());
        r.append(")");
        proof {
            assert(r@ =~= spec_print_value(v));
        }
        r
    } else {
        let mut r = String::from_str("Const(0x");
        r.append(print_hex_u64(v.0).as_str());
        r.append(")");
        proof {
            assert(r@ =~= spec_print_value(v));
        }
        r
    }
}

/// An operand rendered as text.
pub open spec fn spec_print_opnd(o: Opnd) -> Seq<char> {
    match o {
        Opnd::Const(v) => spec_print_value(v),
        Opnd::Insn(id) => "v"@ + dec_digits(id.0 as nat),
    }
}

pub fn print_opnd(o: &Opnd) -> (r: String)
    ensures
        r@ == spec_print_opnd(*o),
{
    match o {
        Opnd::Const(v) => print_value(*v),
        Opnd::Insn(id) => {
            let mut r = String::from_str("v");
            r.append(print_dec(id.0 as u64).as_str());
            proof {
                assert(r@ =~= spec_print_opnd(*o));
            }
            r
        },
    }
}

/// The views of a list of rendered parts.
pub open spec fn strs_view(v: Seq<String>) -> Seq<Seq<char>> {
    v.map_values(|s: String| s@)
}

/// Each operand of a list rendered as text.
pub open spec fn opnds_printed(args: Seq<Opnd>) -> Seq<Seq<char>> {
    args.map_values(|o: Opnd| spec_print_opnd(o))
}

/// Comma-joined concatenation of the parts from position `i` on, with
/// a separator before every part but the first.
pub open spec fn spec_join_from(parts: Seq<Seq<char>>, i: int) -> Seq<char>
    decreases parts.len() - i,
{
    if i < 0 || i >= parts.len() {
        Seq::empty()
    } else {
        (if i > 0 {
            ", "@
        } else {
            Seq::<char>::empty()
        }) + parts[i] + spec_join_from(parts, i + 1)
    }
}

/// A list of parts rendered inside brackets, comma-separated.
pub open spec fn spec_bracketed(parts: Seq<Seq<char>>) -> Seq<char> {
    "["@ + spec_join_from(parts, 0) + "]"@
}

/// Render already-rendered parts inside brackets, comma-separated.
#[verifier::loop_isolation(false)]
pub fn write_vec(parts: &Vec<String>) -> (r: String)
    ensures
        r@ == spec_bracketed(strs_view(parts@)),
{
    let ghost pv = strs_view(parts@);
    let mut r = String::from_str("[");
    let mut i: usize = 0;
    proof {
        assert(pv.len() == parts@.len());
    }
    while i < parts.len()
        invariant
            i <= parts@.len(),
            r@ + spec_join_from(pv, i as int) == "["@ + spec_join_from(pv, 0),
        decreases parts@.len() - i,
    {
        if i > 0 {
            r.append(", ");
        }
        r.append(parts[i].as_str());
        proof {
            assert(pv[i as int] == parts@[i as int]@);
            assert(r@ + spec_join_from(pv, i + 1) =~= "["@ + spec_join_from(pv, 0));
        }
        i += 1;
    }
    r.append("]");
    proof {
        assert(spec_join_from(pv, parts@.len() as int) =~= Seq::<char>::empty());
        assert(r@ =~= spec_bracketed(pv));
    }
    r
}

/// Comma-join the renderings of a list of operands.
#[verifier::loop_isolation(false)]
fn print_opnds_joined(args: &Vec<Opnd>) -> (r: String)
    ensures
        r@ == spec_join_from(opnds_printed(args@), 0),
{
    let ghost pv = opnds_printed(args@);
    let mut r = String::new();
    let mut i: usize = 0;
    while i < args.len()
        invariant
            i <= args@.len(),
            r@ + spec_join_from(pv, i as int) == spec_join_from(pv, 0),
        decreases args@.len() - i,
    {
        if i > 0 {
            r.append(", ");
        }
        r.append(print_opnd(&args[i]).as_str());
        proof {
            assert(pv[i as int] == spec_print_opnd(args@[i as int]));
            assert(r@ + spec_join_from(pv, i + 1) =~= spec_join_from(pv, 0));
        }
        i += 1;
    }
    proof {
        assert(spec_join_from(pv, args@.len() as int) =~= Seq::<char>::empty());
        assert(r@ =~= spec_join_from(pv, 0));
    }
    r
}

/// A branch edge rendered as its target block and the ordered operand
/// values passed as that block's parameters.
pub open spec fn spec_print_edge(e: BranchEdgeV) -> Seq<char> {
    "bb"@ + dec_digits(e.target.0 as nat) + "("@ + spec_join_from(opnds_printed(e.args), 0)
        + ")"@
}

pub fn print_edge(e: &BranchEdge) -> (r: String)
    ensures
        r@ == spec_print_edge(e@),
{
    let mut r = String::from_str("bb");
    r.append(print_dec(e.target.0 as u64).as_str());
    r.append("(");
    r.append(print_opnds_joined(&e.args).as_str());
    r.append(")");
    proof {
        assert(r@ =~= spec_print_edge(e@));
    }
    r
}

/// The simulated frame rendered as its program counter, stack and
/// locals.
pub open spec fn spec_print_frame(f: FrameV) -> Seq<char> {
    "FrameState { pc: "@ + dec_digits(f.pc as nat) + ", stack: "@ + spec_bracketed(
        opnds_printed(f.stack),
    ) + ", locals: "@ + spec_bracketed(opnds_printed(f.locals)) + " }"@
}

/// Render each operand of a list.
#[verifier::loop_isolation(false)]
fn print_opnd_parts(args: &Vec<Opnd>) -> (r: Vec<String>)
    ensures
        strs_view(r@) == opnds_printed(args@),
{
    let mut parts: Vec<String> = Vec::new();
    let mut i: usize = 0;
    while i < args.len()
        invariant
            i <= args@.len(),
            strs_view(parts@) == opnds_printed(args@).take(i as int),
        decreases args@.len() - i,
    {
        parts.push(print_opnd(&args[i]));
        proof {
            assert(strs_view(parts@) =~= opnds_printed(args@).take(i + 1));
        }
        i += 1;
    }
    proof {
        assert(opnds_printed(args@).take(args@.len() as int) =~= opnds_printed(args@));
    }
    parts
}

pub fn print_frame(f: &FrameState) -> (r: String)
    ensures
        r@ == spec_print_frame(f@),
{
    let mut r = String::from_str("FrameState { pc: ");
    r.append(print_dec(f.pc as u64).as_str());
    r.append(", stack: ");
    r.append(write_vec(&print_opnd_parts(&f.stack)).as_str());
    r.append(", locals: ");
    r.append(write_vec(&print_opnd_parts(&f.locals)).as_str());
    r.append(" }");
    proof {
        assert(r@ =~= spec_print_frame(f@));
    }
    r
}

/// The `, `-prefixed renderings of a call's arguments from position
/// `k` on.
pub open spec fn spec_send_args(args: Seq<Opnd>, k: int) -> Seq<char>
    decreases args.len() - k,
{
    if k < 0 || k >= args.len() {
        Seq::empty()
    } else {
        ", "@ + spec_print_opnd(args[k]) + spec_send_args(args, k + 1)
    }
}

/// Append the `, `-prefixed renderings of a call's arguments.
#[verifier::loop_isolation(false)]
fn append_send_args(r: &mut String, args: &Vec<Opnd>)
    ensures
        final(r)@ == old(r)@ + spec_send_args(args@, 0),
{
    let mut i: usize = 0;
    while i < args.len()
        invariant
            i <= args@.len(),
            r@ + spec_send_args(args@, i as int) == old(r)@ + spec_send_args(args@, 0),
        decreases args@.len() - i,
    {
        r.append(", ");
        r.append(print_opnd(&args[i]).as_str());
        proof {
            assert(r@ + spec_send_args(args@, i + 1) =~= old(r)@ + spec_send_args(args@, 0));
        }
        i += 1;
    }
    proof {
        assert(spec_send_args(args@, args@.len() as int) =~= Seq::<char>::empty());
        assert(r@ =~= old(r)@ + spec_send_args(args@, 0));
    }
}

/// One instruction rendered as `<mnemonic> <operands>`.
pub open spec fn spec_print_insn(i: InsnV) -> Seq<char> {
    match i {
        InsnV::Param { idx } => "Param "@ + dec_digits(idx as nat),
        InsnV::StringCopy { val } => "StringCopy "@ + spec_print_opnd(val),
        InsnV::StringIntern { val } => "StringIntern "@ + spec_print_opnd(val),
        InsnV::NewArray { count } => "NewArray "@ + dec_digits(count as nat),
        InsnV::ArraySet { idx, val } => "ArraySet "@ + dec_digits(idx as nat) + ", "@
            + spec_print_opnd(val),
        InsnV::Test { val } => "Test "@ + spec_print_opnd(val),
        InsnV::Defined { op_type, obj, pushval, v } => "Defined "@ + dec_digits(op_type as nat)
            + ", "@ + spec_print_value(obj) + ", "@ + spec_print_value(pushval) + ", "@
            + spec_print_opnd(v),
        InsnV::GetConstantPath { ic } => "GetConstantPath "@ + dec_digits(ic as nat),
        InsnV::Snapshot { state } => "Snapshot "@ + spec_print_frame(state),
        InsnV::Jump(edge) => "Jump "@ + spec_print_edge(edge),
        InsnV::IfTrue { val, branch } => "IfTrue "@ + spec_print_opnd(val) + ", "@
            + spec_print_edge(branch),
        InsnV::IfFalse { val, target } => "IfFalse "@ + spec_print_opnd(val) + ", "@
            + spec_print_edge(target),
        InsnV::CCall { cfun, args } => "CCall "@ + dec_digits(cfun as nat) + spec_send_args(
            args,
            0,
        ),
        InsnV::Send { self_val, call_info, args } => "Send "@ + spec_print_opnd(self_val) + ", :"@
            + call_info + spec_send_args(args, 0),
        InsnV::Return { val } => "Return "@ + spec_print_opnd(val),
    }
}

pub fn print_insn(i: &Insn) -> (r: String)
    ensures
        r@ == spec_print_insn(i@),
{
    match i {
        Insn::Param { idx } => {
            let mut r = String::from_str("Param ");
            r.append(print_dec(*idx as u64).as_str());
            proof {
                assert(r@ =~= spec_print_insn(i@));
            }
            r
        },
        Insn::StringCopy { val } => {
            let mut r = String::from_str("StringCopy ");
            r.append(print_opnd(val).as_str());
            proof {
                assert(r@ =~= spec_print_insn(i@));
            }
            r
        },
        Insn::StringIntern { val } => {
            let mut r = String::from_str("StringIntern ");
            r.append(print_opnd(val).as_str());
            proof {
                assert(r@ =~= spec_print_insn(i@));
            }
            r
        },
        Insn::NewArray { count } => {
            let mut r = String::from_str("NewArray ");
            r.append(print_dec(*count as u64).as_str());
            proof {
                assert(r@ =~= spec_print_insn(i@));
            }
            r
        },
        Insn::ArraySet { idx, val } => {
            let mut r = String::from_str("ArraySet ");
            r.append(print_dec(*idx as u64).as_str());
            r.append(", ");
            r.append(print_opnd(val).as_str());
            proof {
                assert(r@ =~= spec_print_insn(i@));
            }
            r
        },
        Insn::Test { val } => {
            let mut r = String::from_str("Test ");
            r.append(print_opnd(val).as_str());
            proof {
                assert(r@ =~= spec_print_insn(i@));
            }
            r
        },
        Insn::Defined { op_type, obj, pushval, v } => {
            let mut r = String::from_str("Defined ");
            r.append(print_dec(*op_type as u64).as_str());
            r.append(", ");
            r.append(print_value(*obj).as_str());
            r.append(", ");
            r.append(print_value(*pushval).as_str());
            r.append(", ");
            r.append(print_opnd(v).as_str());
            proof {
                assert(r@ =~= spec_print_insn(i@));
            }
            r
        },
        Insn::GetConstantPath { ic } => {
            let mut r = String::from_str("GetConstantPath ");
            r.append(print_dec(*ic as u64).as_str());
            proof {
                assert(r@ =~= spec_print_insn(i@));
            }
            r
        },
        Insn::Snapshot { state } => {
            let mut r = String::from_str("Snapshot ");
            r.append(print_frame(state).as_str());
            proof {
                assert(r@ =~= spec_print_insn(i@));
            }
            r
        },
        Insn::Jump(edge) => {
            let mut r = String::from_str("Jump ");
            r.append(print_edge(edge).as_str());
            proof {
                assert(r@ =~= spec_print_insn(i@));
            }
            r
        },
        Insn::IfTrue { val, branch } => {
            let mut r = String::from_str("IfTrue ");
            r.append(print_opnd(val).as_str());
            r.append(", ");
            r.append(print_edge(branch).as_str());
            proof {
                assert(r@ =~= spec_print_insn(i@));
            }
            r
        },
        Insn::IfFalse { val, target } => {
            let mut r = String::from_str("IfFalse ");
            r.append(print_opnd(val).as_str());
            r.append(", ");
            r.append(print_edge(target).as_str());
            proof {
                assert(r@ =~= spec_print_insn(i@));
            }
            r
        },
        Insn::CCall { cfun, args } => {
            let mut r = String::from_str("CCall ");
            r.append(print_dec(*cfun as u64).as_str());
            append_send_args(&mut r, args);
            proof {
                assert(r@ =~= spec_print_insn(i@));
            }
            r
        },
        Insn::Send { self_val, call_info, args } => {
            let mut r = String::from_str("Send ");
            r.append(print_opnd(self_val).as_str());
            r.append(", :");
            r.append(call_info.name.as_str());
            append_send_args(&mut r, args);
            proof {
                assert(r@ =~= spec_print_insn(i@));
            }
            r
        },
        Insn::Return { val } => {
            let mut r = String::from_str("Return ");
            r.append(print_opnd(val).as_str());
            proof {
                assert(r@ =~= spec_print_insn(i@));
            }
            r
        },
    }
}

/// The rendering of one block's instruction list from position `k`
/// on: `  <id> = <insn>` lines, snapshots elided unless asked for.
pub open spec fn spec_print_block_insns(
    f: FunctionV,
    ids: Seq<InsnId>,
    k: int,
    display_snapshot: bool,
) -> Seq<char>
    decreases ids.len() - k,
{
    if k < 0 || k >= ids.len() {
        Seq::empty()
    } else {
        let id = ids[k];
        let line = if !display_snapshot && f.insns[id.0 as int] is Snapshot {
            Seq::<char>::empty()
        } else {
            "  v"@ + dec_digits(id.0 as nat) + " = "@ + spec_print_insn(f.insns[id.0 as int])
                + "\n"@
        };
        line + spec_print_block_insns(f, ids, k + 1, display_snapshot)
    }
}

/// The rendering of the blocks from id `b` on.
pub open spec fn spec_print_blocks(f: FunctionV, b: int, display_snapshot: bool) -> Seq<char>
    decreases f.blocks.len() - b,
{
    if b < 0 || b >= f.blocks.len() {
        Seq::empty()
    } else {
        "bb"@ + dec_digits(b as nat) + ":\n"@ + spec_print_block_insns(
            f,
            f.blocks[b].insns,
            0,
            display_snapshot,
        ) + spec_print_blocks(f, b + 1, display_snapshot)
    }
}

/// The textual dump of a whole SSA program.
pub open spec fn spec_print_function(f: FunctionV, display_snapshot: bool) -> Seq<char> {
    spec_print_blocks(f, 0, display_snapshot)
}

/// A renderer for one function, with or without its debug snapshots.
pub struct FunctionPrinter<'a> {
    pub fun: &'a Function,
    pub display_snapshot: bool,
}

impl<'a> FunctionPrinter<'a> {
    /// Render without debug snapshots.
    pub fn from(fun: &'a Function) -> (p: FunctionPrinter<'a>)
        ensures
            p.fun == fun,
            p.display_snapshot == false,
    {
        FunctionPrinter { fun, display_snapshot: false }
    }

    /// Render with debug snapshots included.
    pub fn with_snapshot(fun: &'a Function) -> (p: FunctionPrinter<'a>)
        ensures
            p.fun == fun,
            p.display_snapshot == true,
    {
        FunctionPrinter { fun, display_snapshot: true }
    }

    /// The textual dump of the function.
    #[verifier::loop_isolation(false)]
    pub fn to_text(&self) -> (r: String)
        requires
            fv_wf(self.fun@),
        ensures
            r@ == spec_print_function(self.fun@, self.display_snapshot),
    {
        let fun = self.fun;
        let ghost fv = fun@;
        let disp = self.display_snapshot;
        let mut r = String::new();
        let nb = fun.blocks.len();
        let mut b: usize = 0;
        while b < nb
            invariant
                b <= fv.blocks.len(),
                r@ + spec_print_blocks(fv, b as int, disp) == spec_print_blocks(fv, 0, disp),
            decreases nb - b,
        {
            r.append("bb");
            r.append(print_dec(b as u64).as_str());
            r.append(":\n");
            let ids = &fun.blocks[b].insns;
            proof {
                assert(fv.blocks[b as int] == fun.blocks@[b as int]@);
            }
            let mut k: usize = 0;
            while k < ids.len()
                invariant
                    k <= ids@.len(),
                    b < fv.blocks.len(),
                    ids@ == fv.blocks[b as int].insns,
                    r@ + spec_print_block_insns(fv, ids@, k as int, disp) + spec_print_blocks(
                        fv,
                        b + 1,
                        disp,
                    ) == spec_print_blocks(fv, 0, disp),
                decreases ids@.len() - k,
            {
                let id = ids[k];
                assert(id.0 < fun.insns@.len()) by {
                    assert(fv.blocks[b as int].insns[k as int].0 < fv.insns.len());
                }
                let insn = &fun.insns[id.0];
                proof {
                    assert(fv.insns[id.0 as int] == fun.insns@[id.0 as int]@);
                }
                if disp || !matches!(insn, Insn::Snapshot { .. }) {
                    r.append("  v");
                    r.append(print_dec(id.0 as u64).as_str());
                    r.append(" = ");
                    r.append(print_insn(insn).as_str());
                    r.append("\n");
                }
                proof {
                    assert(r@ + spec_print_block_insns(fv, ids@, k + 1, disp) + spec_print_blocks(
                        fv,
                        b + 1,
                        disp,
                    ) =~= spec_print_blocks(fv, 0, disp));
                }
                k += 1;
            }
            proof {
                assert(spec_print_block_insns(fv, ids@, ids@.len() as int, disp) =~= Seq::<
                    char,
                >::empty());
                assert(r@ + spec_print_blocks(fv, b + 1, disp) =~= spec_print_blocks(
                    fv,
                    0,
                    disp,
                ));
            }
            b += 1;
        }
        proof {
            assert(spec_print_blocks(fv, fv.blocks.len() as int, disp) =~= Seq::<char>::empty());
            assert(r@ =~= spec_print_function(fv, disp));
        }
        r
    }
}

} // verus!

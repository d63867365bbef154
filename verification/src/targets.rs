//! Control-flow discovery: a pre-pass over one method's bytecode that
//! finds every offset that must begin a new basic block — the target of
//! any branch, and the offset following a return instruction — as a
//! strictly ascending, deduplicated list.

use vstd::prelude::*;
use crate::bytecode::{
    Iseq, Opcode, Word, WordV, spec_arg_at, spec_insn_idx_at_offset, spec_insn_len,
    spec_opcode_at, get_arg, insn_idx_at_offset, insn_len, opcode_at,
};
use crate::translate::TranslateError;

verus! {

/// Whether this opcode transfers control to an encoded relative target.
pub open spec fn spec_is_branch(op: Opcode) -> bool {
    ||| op == Opcode::Jump
    ||| op == Opcode::BranchIf
    ||| op == Opcode::BranchUnless
    ||| op == Opcode::BranchNil
}

pub fn is_branch(op: Opcode) -> (r: bool)
    ensures
        r == spec_is_branch(op),
{
    match op {
        Opcode::Jump | Opcode::BranchIf | Opcode::BranchUnless | Opcode::BranchNil => true,
        _ => false,
    }
}

/// A sequence is strictly ascending: sorted with no duplicates.
pub open spec fn strictly_sorted(s: Seq<usize>) -> bool {
    forall|i: int, j: int| 0 <= i < j < s.len() ==> s[i] < s[j]
}

/// Insert an offset into a strictly ascending sequence, keeping it
/// strictly ascending; inserting a present offset changes nothing.
pub open spec fn insert_sorted(s: Seq<usize>, x: usize) -> Seq<usize>
    decreases s.len(),
{
    if s.len() == 0 {
        seq![x]
    } else if x < s[0] {
        seq![x] + s
    } else if x == s[0] {
        s
    } else {
        seq![s[0]] + insert_sorted(s.drop_first(), x)
    }
}

/// What [`insert_sorted`] does: it keeps the order strict and its
/// members are exactly the old members plus the new offset.
pub proof fn lemma_insert_sorted(s: Seq<usize>, x: usize)
    requires
        strictly_sorted(s),
    ensures
        strictly_sorted(insert_sorted(s, x)),
        forall|y: usize| #![trigger insert_sorted(s, x).contains(y)]
            insert_sorted(s, x).contains(y) <==> (s.contains(y) || y == x),
        s.len() <= insert_sorted(s, x).len() <= s.len() + 1,
    decreases s.len(),
{
    let r = insert_sorted(s, x);
    if s.len() == 0 {
        assert forall|y: usize| #![trigger r.contains(y)] r.contains(y) implies (s.contains(y) || y
            == x) by {
            let i = choose|i: int| 0 <= i < r.len() && r[i] == y;
            assert(i == 0);
        }
        assert(r.contains(x)) by {
            assert(r[0] == x);
        }
    } else if x < s[0] {
        assert forall|y: usize| #![trigger r.contains(y)] r.contains(y) implies (s.contains(y) || y
            == x) by {
            let i = choose|i: int| 0 <= i < r.len() && r[i] == y;
            if i > 0 {
                assert(s[i - 1] == y);
            }
        }
        assert forall|y: usize| #![trigger r.contains(y)] s.contains(y) || y == x implies
            r.contains(y) by {
            if y == x {
                assert(r[0] == y);
            } else {
                let i = choose|i: int| 0 <= i < s.len() && s[i] == y;
                assert(r[i + 1] == y);
            }
        }
    } else if x == s[0] {
        assert forall|y: usize| #![trigger r.contains(y)] s.contains(y) || y == x implies
            r.contains(y) by {
            if y == x {
                assert(r[0] == y);
            }
        }
    } else {
        let tail = s.drop_first();
        assert(strictly_sorted(tail)) by {
            assert(forall|i: int, j: int|
                0 <= i < j < tail.len() ==> tail[i] == s[i + 1] && tail[j] == s[j + 1]);
        }
        lemma_insert_sorted(tail, x);
        let rt = insert_sorted(tail, x);
        // Everything in the recursive result is above s[0].
        assert forall|k: int| 0 <= k < rt.len() implies s[0] < rt[k] by {
            assert(rt.contains(rt[k]));
            if tail.contains(rt[k]) {
                let i = choose|i: int| 0 <= i < tail.len() && tail[i] == rt[k];
                assert(s[i + 1] == rt[k]);
            }
        }
        assert(strictly_sorted(r)) by {
            assert(forall|i: int, j: int|
                0 <= i < j < r.len() && i > 0 ==> r[i] == rt[i - 1] && r[j] == rt[j - 1]);
            assert(forall|j: int| 1 <= j < r.len() ==> r[j] == rt[j - 1] && s[0] < rt[j - 1]);
        }
        assert forall|y: usize| #![trigger r.contains(y)] r.contains(y) implies (s.contains(y) || y
            == x) by {
            let i = choose|i: int| 0 <= i < r.len() && r[i] == y;
            if i == 0 {
                assert(s.contains(s[0]));
            } else {
                assert(rt.contains(r[i])) by {
                    assert(rt[i - 1] == r[i]);
                }
                if tail.contains(y) {
                    let k = choose|k: int| 0 <= k < tail.len() && tail[k] == y;
                    assert(s[k + 1] == y);
                }
            }
        }
        assert forall|y: usize| #![trigger r.contains(y)] s.contains(y) || y == x implies
            r.contains(y) by {
            if y == x {
                assert(rt.contains(x));
                let k = choose|k: int| 0 <= k < rt.len() && rt[k] == x;
                assert(r[k + 1] == x);
            } else {
                let i = choose|i: int| 0 <= i < s.len() && s[i] == y;
                if i == 0 {
                    assert(r[0] == y);
                } else {
                    assert(tail[i - 1] == y);
                    assert(tail.contains(y));
                    assert(rt.contains(y));
                    let k = choose|k: int| 0 <= k < rt.len() && rt[k] == y;
                    assert(r[k + 1] == y);
                }
            }
        }
    }
}

/// Inserting an offset below a bound keeps every member below the
/// bound.
pub proof fn lemma_insert_sorted_bound(s: Seq<usize>, x: usize, bound: int)
    requires
        strictly_sorted(s),
        forall|k: int| 0 <= k < s.len() ==> s[k] < bound,
        x < bound,
    ensures
        forall|k: int| 0 <= k < insert_sorted(s, x).len() ==> insert_sorted(s, x)[k] < bound,
{
    lemma_insert_sorted(s, x);
    let r = insert_sorted(s, x);
    assert forall|k: int| 0 <= k < r.len() implies r[k] < bound by {
        assert(r.contains(r[k]));
        if s.contains(r[k]) {
            let i = choose|i: int| 0 <= i < s.len() && s[i] == r[k];
        }
    }
}

/// In a strictly ascending sequence each member is at least its index.
pub proof fn lemma_strictly_sorted_index(s: Seq<usize>, i: int)
    requires
        strictly_sorted(s),
        0 <= i < s.len(),
    ensures
        s[i] >= i,
    decreases i,
{
    if i > 0 {
        lemma_strictly_sorted_index(s, i - 1);
        assert(s[i - 1] < s[i]);
    }
}

/// A strictly ascending sequence of offsets below a bound has at most
/// that many members.
pub proof fn lemma_strictly_sorted_len(s: Seq<usize>, bound: int)
    requires
        strictly_sorted(s),
        bound >= 0,
        forall|i: int| 0 <= i < s.len() ==> s[i] < bound,
    ensures
        s.len() <= bound,
{
    if s.len() > 0 {
        lemma_strictly_sorted_index(s, s.len() - 1);
        assert(s[s.len() - 1] < bound);
    }
}

/// Insert an offset into a strictly ascending vector.
fn insert_target(v: &mut Vec<usize>, x: usize)
    requires
        strictly_sorted(old(v)@),
    ensures
        final(v)@ == insert_sorted(old(v)@, x),
{
    let mut i: usize = 0;
    while i < v.len() && v[i] < x
        invariant
            0 <= i <= v@.len(),
            strictly_sorted(v@),
            v@ == old(v)@,
            forall|k: int| 0 <= k < i ==> v@[k] < x,
        decreases v@.len() - i,
    {
        i += 1;
    }
    proof {
        lemma_insert_sorted_split(v@, x, i as int);
    }
    if i < v.len() {
        let cur = v[i];
        if cur == x {
            proof {
                assert(insert_sorted(old(v)@.skip(i as int), x) =~= old(v)@.skip(i as int));
                assert(old(v)@.take(i as int) + old(v)@.skip(i as int) =~= old(v)@);
            }
            return ;
        }
        v.insert(i, x);
        proof {
            assert(insert_sorted(old(v)@.skip(i as int), x) =~= seq![x] + old(v)@.skip(i as int));
            assert(final(v)@ =~= old(v)@.take(i as int) + (seq![x] + old(v)@.skip(i as int)));
        }
    } else {
        v.push(x);
        proof {
            assert(old(v)@.skip(i as int) =~= Seq::<usize>::empty());
            assert(insert_sorted(old(v)@.skip(i as int), x) =~= seq![x]);
            assert(final(v)@ =~= old(v)@.take(i as int) + seq![x]);
        }
    }
}

/// Splitting [`insert_sorted`] at a prefix of members below the new
/// offset.
proof fn lemma_insert_sorted_split(s: Seq<usize>, x: usize, i: int)
    requires
        strictly_sorted(s),
        0 <= i <= s.len(),
        forall|k: int| 0 <= k < i ==> s[k] < x,
    ensures
        insert_sorted(s, x) == s.take(i) + insert_sorted(s.skip(i), x),
    decreases i,
{
    if i == 0 {
        assert(s.skip(0) =~= s);
        assert(s.take(0) + insert_sorted(s, x) =~= insert_sorted(s, x));
    } else {
        let tail = s.drop_first();
        assert(strictly_sorted(tail)) by {
            assert(forall|a: int, b: int|
                0 <= a < b < tail.len() ==> tail[a] == s[a + 1] && tail[b] == s[b + 1]);
        }
        assert(forall|k: int| 0 <= k < i - 1 ==> tail[k] == s[k + 1] && s[k + 1] < x);
        lemma_insert_sorted_split(tail, x, i - 1);
        assert(tail.skip(i - 1) =~= s.skip(i));
        assert(s[0] < x);
        assert(insert_sorted(s, x) == seq![s[0]] + insert_sorted(tail, x));
        assert(seq![s[0]] + (tail.take(i - 1) + insert_sorted(s.skip(i), x)) =~= s.take(i)
            + insert_sorted(s.skip(i), x));
    }
}

/// The discovery scan from boundary `idx` on: the block-start offsets
/// it records, accumulated onto `acc`, or the malformation it finds.
///
/// A branch records the offset its encoded relative target resolves to
/// (relative to the word after the branch); a return records the next
/// offset, so that residual code after it starts a fresh block.
pub open spec fn scan_targets(code: Seq<WordV>, idx: int, acc: Seq<usize>) -> Result<
    Seq<usize>,
    TranslateError,
>
    decreases code.len() - idx,
{
    if idx < 0 || idx >= code.len() {
        Ok(acc)
    } else {
        match spec_opcode_at(code, idx) {
            None => Err(TranslateError::MalformedBytecode),
            Some(op) => {
                let next = idx + spec_insn_len(op);
                let cont = if next > code.len() {
                    code.len() as int
                } else {
                    next
                };
                if spec_is_branch(op) {
                    match spec_arg_at(code, idx, 0) {
                        Some(WordV::Off(off)) => match spec_insn_idx_at_offset(
                            next as usize,
                            off,
                        ) {
                            Some(t) => if t >= code.len() {
                                Err(TranslateError::TargetOutOfBounds)
                            } else {
                                scan_targets(code, cont, insert_sorted(acc, t))
                            },
                            None => Err(TranslateError::TargetOutOfBounds),
                        },
                        _ => Err(TranslateError::MalformedBytecode),
                    }
                } else if op == Opcode::Leave {
                    if next < code.len() {
                        scan_targets(code, cont, insert_sorted(acc, next as usize))
                    } else {
                        scan_targets(code, cont, acc)
                    }
                } else {
                    scan_targets(code, cont, acc)
                }
            },
        }
    }
}

/// The scan keeps a strictly ascending accumulator strictly ascending,
/// never drops a member, and keeps every member below the code length
/// if the accumulator's members were.
pub proof fn lemma_scan_targets_props(code: Seq<WordV>, idx: int, acc: Seq<usize>)
    requires
        strictly_sorted(acc),
        forall|k: int| 0 <= k < acc.len() ==> acc[k] < code.len(),
        scan_targets(code, idx, acc) is Ok,
    ensures
        strictly_sorted(scan_targets(code, idx, acc)->Ok_0),
        forall|y: usize|
            acc.contains(y) ==> #[trigger] scan_targets(code, idx, acc)->Ok_0.contains(y),
        forall|k: int|
            0 <= k < scan_targets(code, idx, acc)->Ok_0.len() ==> #[trigger] scan_targets(
                code,
                idx,
                acc,
            )->Ok_0[k] < code.len(),
    decreases code.len() - idx,
{
    if idx < 0 || idx >= code.len() {
    } else {
        match spec_opcode_at(code, idx) {
            None => {},
            Some(op) => {
                let next = idx + spec_insn_len(op);
                let cont = if next > code.len() {
                    code.len() as int
                } else {
                    next
                };
                if spec_is_branch(op) {
                    match spec_arg_at(code, idx, 0) {
                        Some(WordV::Off(off)) => match spec_insn_idx_at_offset(
                            next as usize,
                            off,
                        ) {
                            Some(t) => {
                                if t < code.len() {
                                    lemma_insert_sorted(acc, t);
                                    lemma_insert_sorted_bound(acc, t, code.len() as int);
                                    lemma_scan_targets_props(code, cont, insert_sorted(acc, t));
                                }
                            },
                            None => {},
                        },
                        _ => {},
                    }
                } else if op == Opcode::Leave {
                    if next < code.len() {
                        lemma_insert_sorted(acc, next as usize);
                        lemma_insert_sorted_bound(acc, next as usize, code.len() as int);
                        lemma_scan_targets_props(code, cont, insert_sorted(acc, next as usize));
                    } else {
                        lemma_scan_targets_props(code, cont, acc);
                    }
                } else {
                    lemma_scan_targets_props(code, cont, acc);
                }
            },
        }
    }
}

/// Boundary `j` lies on the linear decoding path that starts at
/// boundary `from`.
pub open spec fn reaches(code: Seq<WordV>, from: int, j: int) -> bool
    decreases code.len() - from,
{
    if from == j {
        true
    } else if from < 0 || from >= code.len() {
        false
    } else {
        match spec_opcode_at(code, from) {
            None => false,
            Some(op) => {
                let next = from + spec_insn_len(op);
                let cont = if next > code.len() {
                    code.len() as int
                } else {
                    next
                };
                reaches(code, cont, j)
            },
        }
    }
}

/// Every branch instruction the scan decodes has its computed target
/// in the scan's result: the target offset of a branch at any reached
/// boundary is a member of the returned set.
pub proof fn lemma_branch_target_member(
    code: Seq<WordV>,
    idx: int,
    acc: Seq<usize>,
    j: int,
    t: usize,
)
    requires
        strictly_sorted(acc),
        forall|k: int| 0 <= k < acc.len() ==> acc[k] < code.len(),
        scan_targets(code, idx, acc) is Ok,
        reaches(code, idx, j),
        0 <= j < code.len(),
        spec_opcode_at(code, j) is Some,
        spec_is_branch(spec_opcode_at(code, j)->Some_0),
        match spec_arg_at(code, j, 0) {
            Some(WordV::Off(off)) => spec_insn_idx_at_offset(
                (j + spec_insn_len(spec_opcode_at(code, j)->Some_0)) as usize,
                off,
            ) == Some(t),
            _ => false,
        },
    ensures
        scan_targets(code, idx, acc)->Ok_0.contains(t),
    decreases code.len() - idx,
{
    let op = spec_opcode_at(code, idx)->Some_0;
    let next = idx + spec_insn_len(op);
    let cont = if next > code.len() {
        code.len() as int
    } else {
        next
    };
    if idx == j {
        match spec_arg_at(code, idx, 0) {
            Some(WordV::Off(off)) => {
                lemma_insert_sorted(acc, t);
                lemma_insert_sorted_bound(acc, t, code.len() as int);
                lemma_scan_targets_props(code, cont, insert_sorted(acc, t));
                assert(insert_sorted(acc, t).contains(t));
            },
            _ => {},
        }
    } else {
        if spec_is_branch(op) {
            match spec_arg_at(code, idx, 0) {
                Some(WordV::Off(off)) => match spec_insn_idx_at_offset(next as usize, off) {
                    Some(t2) => {
                        if t2 < code.len() {
                            lemma_insert_sorted(acc, t2);
                            lemma_insert_sorted_bound(acc, t2, code.len() as int);
                            lemma_branch_target_member(code, cont, insert_sorted(acc, t2), j, t);
                        }
                    },
                    None => {},
                },
                _ => {},
            }
        } else if op == Opcode::Leave {
            if next < code.len() {
                lemma_insert_sorted(acc, next as usize);
                lemma_insert_sorted_bound(acc, next as usize, code.len() as int);
                lemma_branch_target_member(code, cont, insert_sorted(acc, next as usize), j, t);
            } else {
                lemma_branch_target_member(code, cont, acc, j, t);
            }
        } else {
            lemma_branch_target_member(code, cont, acc, j, t);
        }
    }
}

/// Decoding one more instruction extends the decoding path.
pub proof fn lemma_reaches_step(code: Seq<WordV>, a: int, b: int)
    requires
        reaches(code, a, b),
        0 <= b < code.len(),
        spec_opcode_at(code, b) is Some,
    ensures
        ({
            let next = b + spec_insn_len(spec_opcode_at(code, b)->Some_0);
            let cont = if next > code.len() {
                code.len() as int
            } else {
                next
            };
            reaches(code, a, cont)
        }),
    decreases code.len() - a,
{
    let op = spec_opcode_at(code, b)->Some_0;
    let next = b + spec_insn_len(op);
    let cont = if next > code.len() {
        code.len() as int
    } else {
        next
    };
    if a == b {
        assert(reaches(code, cont, cont));
        assert(reaches(code, b, cont));
    } else {
        let opa = spec_opcode_at(code, a)->Some_0;
        let nexta = a + spec_insn_len(opa);
        let conta = if nexta > code.len() {
            code.len() as int
        } else {
            nexta
        };
        lemma_reaches_step(code, conta, b);
    }
}

/// When the scan succeeds, every branch on the decoding path had a
/// well-formed offset argument and a target inside the body.
pub proof fn lemma_scan_ok_branch_valid(code: Seq<WordV>, idx: int, acc: Seq<usize>, j: int)
    requires
        scan_targets(code, idx, acc) is Ok,
        reaches(code, idx, j),
        0 <= j < code.len(),
        spec_opcode_at(code, j) is Some,
        spec_is_branch(spec_opcode_at(code, j)->Some_0),
    ensures
        match spec_arg_at(code, j, 0) {
            Some(WordV::Off(off)) => match spec_insn_idx_at_offset(
                (j + spec_insn_len(spec_opcode_at(code, j)->Some_0)) as usize,
                off,
            ) {
                Some(t) => t < code.len(),
                None => false,
            },
            _ => false,
        },
    decreases code.len() - idx,
{
    if idx == j {
    } else {
        let op = spec_opcode_at(code, idx)->Some_0;
        let next = idx + spec_insn_len(op);
        let cont = if next > code.len() {
            code.len() as int
        } else {
            next
        };
        if spec_is_branch(op) {
            match spec_arg_at(code, idx, 0) {
                Some(WordV::Off(off)) => match spec_insn_idx_at_offset(next as usize, off) {
                    Some(t2) => {
                        if t2 < code.len() {
                            lemma_scan_ok_branch_valid(code, cont, insert_sorted(acc, t2), j);
                        }
                    },
                    None => {},
                },
                _ => {},
            }
        } else if op == Opcode::Leave {
            if next < code.len() {
                lemma_scan_ok_branch_valid(code, cont, insert_sorted(acc, next as usize), j);
            } else {
                lemma_scan_ok_branch_valid(code, cont, acc, j);
            }
        } else {
            lemma_scan_ok_branch_valid(code, cont, acc, j);
        }
    }
}

/// The scan's only failures are a malformed stream and an
/// out-of-bounds target.
pub proof fn lemma_scan_err_kind(code: Seq<WordV>, idx: int, acc: Seq<usize>)
    requires
        scan_targets(code, idx, acc) is Err,
    ensures
        scan_targets(code, idx, acc) == Err::<Seq<usize>, TranslateError>(
            TranslateError::MalformedBytecode,
        ) || scan_targets(code, idx, acc) == Err::<Seq<usize>, TranslateError>(
            TranslateError::TargetOutOfBounds,
        ),
    decreases code.len() - idx,
{
    if idx < 0 || idx >= code.len() {
    } else {
        match spec_opcode_at(code, idx) {
            None => {},
            Some(op) => {
                let next = idx + spec_insn_len(op);
                let cont = if next > code.len() {
                    code.len() as int
                } else {
                    next
                };
                if spec_is_branch(op) {
                    match spec_arg_at(code, idx, 0) {
                        Some(WordV::Off(off)) => match spec_insn_idx_at_offset(
                            next as usize,
                            off,
                        ) {
                            Some(t) => {
                                if t < code.len() {
                                    lemma_scan_err_kind(code, cont, insert_sorted(acc, t));
                                }
                            },
                            None => {},
                        },
                        _ => {},
                    }
                } else if op == Opcode::Leave {
                    if next < code.len() {
                        lemma_scan_err_kind(code, cont, insert_sorted(acc, next as usize));
                    } else {
                        lemma_scan_err_kind(code, cont, acc);
                    }
                } else {
                    lemma_scan_err_kind(code, cont, acc);
                }
            },
        }
    }
}

/// Compute the sorted, deduplicated set of block-start offsets of one
/// method body: every branch target, and the offset after every return
/// instruction that is not the last instruction.
pub fn compute_jump_targets(iseq: &Iseq) -> (r: Result<Vec<usize>, TranslateError>)
    ensures
        match r {
            Ok(v) => scan_targets(iseq@, 0, Seq::empty()) == Ok::<Seq<usize>, TranslateError>(v@)
                && strictly_sorted(v@) && (forall|k: int| 0 <= k < v@.len() ==> v@[k]
                < iseq@.len()),
            Err(e) => scan_targets(iseq@, 0, Seq::empty()) == Err::<Seq<usize>, TranslateError>(
                e,
            ),
        },
{
    let ghost code = iseq@;
    let n = iseq.words.len();
    let mut targets: Vec<usize> = Vec::new();
    let mut idx: usize = 0;
    proof {
        assert(targets@ =~= Seq::<usize>::empty());
    }
    while idx < n
        invariant
            n == iseq.words@.len(),
            code == iseq@,
            strictly_sorted(targets@),
            forall|k: int| 0 <= k < targets@.len() ==> targets@[k] < code.len(),
            scan_targets(code, 0, Seq::empty()) == scan_targets(code, idx as int, targets@),
        decreases n - idx,
    {
        let ghost idx0 = idx as int;
        let ghost tgt0 = targets@;
        let op = match opcode_at(iseq, idx) {
            Some(op) => op,
            None => {
                assert(scan_targets(code, idx0, tgt0) == Err::<Seq<usize>, TranslateError>(
                    TranslateError::MalformedBytecode,
                ));
                return Err(TranslateError::MalformedBytecode);
            },
        };
        let step = insn_len(op);
        let ghost next = idx0 + spec_insn_len(op);
        let cont: usize = if step >= n - idx {
            n
        } else {
            idx + step
        };
        assert(cont as int == if next > code.len() {
            code.len() as int
        } else {
            next
        });
        if is_branch(op) {
            let off = match get_arg(iseq, idx, 0) {
                Some(w) => match w {
                    Word::Off(off) => *off,
                    _ => {
                        assert(scan_targets(code, idx0, tgt0) == Err::<Seq<usize>, TranslateError>(
                            TranslateError::MalformedBytecode,
                        ));
                        return Err(TranslateError::MalformedBytecode);
                    },
                },
                None => {
                    assert(scan_targets(code, idx0, tgt0) == Err::<Seq<usize>, TranslateError>(
                        TranslateError::MalformedBytecode,
                    ));
                    return Err(TranslateError::MalformedBytecode);
                },
            };
            // The offset argument exists, so the word after the branch
            // is still within the body.
            assert(idx + 2 <= n);
            let t = match insn_idx_at_offset(idx + 2, off) {
                Some(t) => t,
                None => {
                    assert(scan_targets(code, idx0, tgt0) == Err::<Seq<usize>, TranslateError>(
                        TranslateError::TargetOutOfBounds,
                    ));
                    return Err(TranslateError::TargetOutOfBounds);
                },
            };
            if t >= n {
                assert(scan_targets(code, idx0, tgt0) == Err::<Seq<usize>, TranslateError>(
                    TranslateError::TargetOutOfBounds,
                ));
                return Err(TranslateError::TargetOutOfBounds);
            }
            proof {
                lemma_insert_sorted(tgt0, t);
                lemma_insert_sorted_bound(tgt0, t, code.len() as int);
            }
            insert_target(&mut targets, t);
            assert(scan_targets(code, idx0, tgt0) == scan_targets(code, cont as int, targets@));
        } else if matches!(op, Opcode::Leave) {
            if cont < n {
                proof {
                    lemma_insert_sorted(tgt0, cont);
                    lemma_insert_sorted_bound(tgt0, cont, code.len() as int);
                }
                insert_target(&mut targets, cont);
                assert(next < code.len() && cont as int == next);
                assert(scan_targets(code, idx0, tgt0) == scan_targets(
                    code,
                    cont as int,
                    targets@,
                ));
            } else {
                assert(scan_targets(code, idx0, tgt0) == scan_targets(
                    code,
                    cont as int,
                    targets@,
                ));
            }
        } else {
            assert(scan_targets(code, idx0, tgt0) == scan_targets(code, cont as int, targets@));
        }
        idx = cont;
    }
    Ok(targets)
}

} // verus!

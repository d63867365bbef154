use zjit::ir::{Block, BlockId, Function, FrameState, Insn, InsnId, Opnd};
use zjit::value::Value;

#[test]
fn value_tagging() {
    let v = Value::fixnum_from_usize(21);
    assert!(v.fixnum_p());
    assert_eq!(v.as_fixnum(), 21);
    assert!(!Value::nil().fixnum_p());
    assert!(Value::nil().nil_p());
    assert_eq!(Value::fixnum_from_usize(0), Value(1));
    assert_eq!(Value::fixnum_from_usize(1), Value(3));
}

#[test]
fn frame_stack_operations() {
    let mut f = FrameState::new();
    let a = Opnd::Const(Value::fixnum_from_usize(1));
    let b = Opnd::Const(Value::fixnum_from_usize(2));
    f.push(a);
    f.push(b);
    assert_eq!(f.top(), b);
    assert_eq!(f.pop(), b);
    assert_eq!(f.pop(), a);
}

#[test]
fn locals_grow_lazily_with_nil() {
    let mut f = FrameState::new();
    assert_eq!(f.getlocal(2), Opnd::Const(Value::nil()));
    assert_eq!(f.locals.len(), 3);
    let v = Opnd::Const(Value::fixnum_from_usize(5));
    f.setlocal(5, v);
    assert_eq!(f.locals.len(), 6);
    assert_eq!(f.getlocal(5), v);
    assert_eq!(f.getlocal(4), Opnd::Const(Value::nil()));
}

#[test]
fn frame_duplicate_is_equal() {
    let mut f = FrameState::new();
    f.push(Opnd::Const(Value::nil()));
    f.setlocal(1, Opnd::Const(Value::fixnum_from_usize(2)));
    let g = f.duplicate();
    assert_eq!(f, g);
}

#[test]
fn function_assigns_dense_ids() {
    let mut f = Function::new(3);
    assert_eq!(f.iseq, 3);
    assert_eq!(f.entry_block, BlockId(0));
    assert_eq!(f.blocks.len(), 1);
    let id0 = f.push_insn(BlockId(0), Insn::NewArray { count: 0 });
    let id1 = f.push_insn(BlockId(0), Insn::Return { val: Opnd::Insn(id0) });
    assert_eq!(id0, InsnId(0));
    assert_eq!(id1, InsnId(1));
    assert_eq!(f.blocks[0].insns, vec![InsnId(0), InsnId(1)]);
    let b1 = f.new_block();
    assert_eq!(b1, BlockId(1));
    assert_eq!(f.blocks.len(), 2);
    let id2 = f.push_insn(b1, Insn::NewArray { count: 1 });
    assert_eq!(id2, InsnId(2));
    assert_eq!(f.blocks[1].insns, vec![InsnId(2)]);
}

#[test]
fn blocks_start_empty() {
    let b = Block { params: vec![], insns: vec![] };
    assert!(b.params.is_empty());
    assert!(b.insns.is_empty());
}

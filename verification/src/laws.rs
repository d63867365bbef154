//! Properties that hold across the translator and the code generator
//! together: the simplest methods translate and compile end to end to
//! a native return of their constant.

use vstd::prelude::*;
use crate::backend::{AsmInsn, AsmOpnd};
use crate::codegen::{lemma_snapshots_then_return_const_accepted, spec_gen_function};
use crate::translate::{
    UnknownHandling, const_method, lemma_putnil_leave_returns_nil,
    lemma_putobject_leave_returns_const, nil_method, spec_translate,
};
use crate::value::Value;

verus! {

/// A method of push-nil, return is translated, accepted by the code
/// generator, and its generated stream ends in a native return
/// carrying the nil constant.
pub proof fn lemma_nil_method_compiles(handle: u64, mode: UnknownHandling)
    ensures
        spec_translate(handle, nil_method(), mode) is Ok,
        spec_gen_function(spec_translate(handle, nil_method(), mode)->Ok_0) is Some,
        spec_gen_function(spec_translate(handle, nil_method(), mode)->Ok_0)->Some_0.last() == (
        AsmInsn::CRet { val: AsmOpnd::Val(Value::spec_nil()) }),
{
    lemma_putnil_leave_returns_nil(handle, mode);
    let f = spec_translate(handle, nil_method(), mode)->Ok_0;
    lemma_snapshots_then_return_const_accepted(f, Value::spec_nil());
}

/// A method of push-constant K, return is translated, accepted by the
/// code generator, and its generated stream ends in a native return
/// carrying K.
pub proof fn lemma_const_method_compiles(handle: u64, k: Value, mode: UnknownHandling)
    ensures
        spec_translate(handle, const_method(k), mode) is Ok,
        spec_gen_function(spec_translate(handle, const_method(k), mode)->Ok_0) is Some,
        spec_gen_function(spec_translate(handle, const_method(k), mode)->Ok_0)->Some_0.last()
            == (AsmInsn::CRet { val: AsmOpnd::Val(k) }),
{
    lemma_putobject_leave_returns_const(handle, k, mode);
    let f = spec_translate(handle, const_method(k), mode)->Ok_0;
    lemma_snapshots_then_return_const_accepted(f, k);
}

} // verus!

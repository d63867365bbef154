//! The interpreter's uniform tagged representation of a runtime value.
//!
//! A value is one machine word whose reserved bit patterns distinguish an
//! immediate fixed integer (odd words), the special constant nil, and
//! pointers to heap objects (all remaining even words).

use vstd::prelude::*;

verus! {

/// Bit pattern of the interpreter's nil constant.
pub const QNIL_BITS: u64 = 8;

/// One tagged machine word of the interpreter.
#[derive(Copy, Clone, PartialEq, Eq, Hash, Debug, Structural)]
pub struct Value(pub u64);

impl Value {
    /// Whether this word carries an immediate fixed integer
    /// (the low tag bit is set).
    pub open spec fn spec_fixnum_p(self) -> bool {
        self.0 % 2 == 1
    }

    #[verifier::when_used_as_spec(spec_fixnum_p)]
    pub fn fixnum_p(self) -> (r: bool)
        ensures
            r == self.spec_fixnum_p(),
    {
        self.0 % 2 == 1
    }

    /// The integer a fixnum word carries: the word without its tag bit.
    pub open spec fn spec_as_fixnum(self) -> u64 {
        self.0 / 2
    }

    #[verifier::when_used_as_spec(spec_as_fixnum)]
    pub fn as_fixnum(self) -> (r: u64)
        ensures
            r == self.spec_as_fixnum(),
    {
        self.0 / 2
    }

    /// The nil constant.
    pub open spec fn spec_nil() -> Value {
        Value(QNIL_BITS)
    }

    #[verifier::when_used_as_spec(spec_nil)]
    pub fn nil() -> (r: Value)
        ensures
            r == Value::spec_nil(),
    {
        Value(QNIL_BITS)
    }

    pub open spec fn spec_nil_p(self) -> bool {
        self.0 == QNIL_BITS
    }

    #[verifier::when_used_as_spec(spec_nil_p)]
    pub fn nil_p(self) -> (r: bool)
        ensures
            r == self.spec_nil_p(),
    {
        self.0 == QNIL_BITS
    }

    /// The fixnum word for a small unsigned integer.
    pub open spec fn spec_fixnum_from_usize(n: usize) -> Value {
        Value((2 * n + 1) as u64)
    }

    #[verifier::when_used_as_spec(spec_fixnum_from_usize)]
    pub fn fixnum_from_usize(n: usize) -> (r: Value)
        requires
            (n as u64) < 0x8000_0000_0000_0000u64,
        ensures
            r == Value::spec_fixnum_from_usize(n),
            r.fixnum_p(),
            r.as_fixnum() == n,
    {
        Value(2 * (n as u64) + 1)
    }
}

} // verus!

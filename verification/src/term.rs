//! The arbitrary-precision value type of the sequence, backed by
//! num-bigint's `BigInt`. The verifier sees each value only through its
//! mathematical integer view `term_value`; the trusted wrappers below state
//! how each `BigInt` operation acts on that view.

use vstd::prelude::*;

verus! {

/// Declares num-bigint's arbitrary-precision integer to the verifier. Values
/// of it are opaque here and are reached only through the trusted wrappers
/// below.
#[verifier::external_type_specification]
#[verifier::external_body]
pub struct ExBigInt(num_bigint::BigInt);

/// One term of the partition-count sequence: an exact, unbounded-magnitude
/// integer. Its view is the mathematical value of the wrapped integer.
pub struct Term {
    inner: num_bigint::BigInt,
}

/// The mathematical value of a term's wrapped `BigInt`. Everything
/// known about it comes from the contracts of the trusted wrappers below.
pub uninterp spec fn term_value(t: Term) -> int;

impl View for Term {
    type V = int;

    open spec fn view(&self) -> int {
        term_value(*self)
    }
}

impl Term {
    /// Relies on num-bigint's `impl From<u64> for BigInt`: the constructed
    /// integer has exactly the given value.
    #[verifier::external_body]
    pub fn from_u64(v: u64) -> (r: Term)
        ensures
            term_value(r) == v as int,
    {
        Term { inner: num_bigint::BigInt::from(v) }
    }
}

/// Relies on num-bigint's `Add` for `&BigInt`: exact, unbounded integer
/// addition.
#[verifier::external_body]
pub(crate) fn term_add(a: &Term, b: &Term) -> (r: Term)
    ensures
        term_value(r) == term_value(*a) + term_value(*b),
{
    Term { inner: &a.inner + &b.inner }
}

/// Relies on num-bigint's `Sub` for `&BigInt`: exact, unbounded integer
/// subtraction.
#[verifier::external_body]
pub(crate) fn term_sub(a: &Term, b: &Term) -> (r: Term)
    ensures
        term_value(r) == term_value(*a) - term_value(*b),
{
    Term { inner: &a.inner - &b.inner }
}

/// Relies on num-bigint's derived `Clone` for `BigInt`: the copy has the
/// same value.
#[verifier::external_body]
pub(crate) fn term_clone(t: &Term) -> (r: Term)
    ensures
        term_value(r) == term_value(*t),
{
    Term { inner: t.inner.clone() }
}

/// Relies on num-bigint's `PartialEq` for `BigInt`: true exactly when the
/// two integers have the same value.
#[verifier::external_body]
pub(crate) fn term_eq(a: &Term, b: &Term) -> (r: bool)
    ensures
        r == (term_value(*a) == term_value(*b)),
{
    a.inner == b.inner
}

impl Clone for Term {
    fn clone(&self) -> (r: Term)
        ensures
            r@ == self@,
    {
        term_clone(self)
    }
}

impl vstd::std_specs::cmp::PartialEqSpecImpl for Term {
    open spec fn obeys_eq_spec() -> bool {
        true
    }

    open spec fn eq_spec(&self, other: &Term) -> bool {
        self@ == other@
    }
}

impl PartialEq for Term {
    fn eq(&self, other: &Term) -> (r: bool)
        ensures
            r == (self@ == other@),
    {
        term_eq(self, other)
    }
}

} // verus!

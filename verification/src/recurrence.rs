//! The mathematical model of the partition-count sequence: the generalized
//! pentagonal dependency offsets, their signs, and the recurrence itself.

use crate::AddOrSub;
use vstd::arithmetic::div_mod::{
    lemma_div_multiples_vanish, lemma_div_multiples_vanish_fancy, lemma_fundamental_div_mod,
};
use vstd::prelude::*;

verus! {

/// The k-th pentagonal number k(3k-1)/2. At a negative argument it gives the
/// second member of each generalized pentagonal pair, since
/// pent(-k) == k(3k+1)/2.
pub open spec fn pent(k: int) -> int {
    k * (3 * k - 1) / 2
}

/// Offset of the j-th dependency entry: the generalized pentagonal numbers
/// 1, 2, 5, 7, 12, 15, ... in ascending order, i.e. pent(1), pent(-1),
/// pent(2), pent(-2), ...
pub open spec fn dep_offset(j: nat) -> int {
    let k = j as int / 2 + 1;
    if j % 2 == 0 {
        pent(k)
    } else {
        pent(-k)
    }
}

/// Sign of the j-th dependency entry: the pairs alternate + + - - + + - -,
/// so an entry adds exactly when its 1-based pair index is odd.
pub open spec fn dep_is_add(j: nat) -> bool {
    (j / 2 + 1) % 2 == 1
}

/// Signed sum of the contributions of dependency entries 0 .. j to the term
/// at index i: entry m contributes the earlier term at i - dep_offset(m),
/// with its sign, whenever its offset is within range, and nothing otherwise.
pub open spec fn term_sum(i: nat, j: nat) -> int
    decreases i, j,
{
    if j == 0 {
        0
    } else {
        let m = (j - 1) as nat;
        let off = dep_offset(m);
        let rest = term_sum(i, m);
        if 1 <= off && off <= i {
            if dep_is_add(m) {
                rest + term_spec((i - off) as nat)
            } else {
                rest - term_spec((i - off) as nat)
            }
        } else {
            rest
        }
    }
}

/// The partition-count sequence: terms 0 and 1 are both 1, and every later
/// term is the signed sum of earlier terms selected by the dependency
/// offsets (Euler's pentagonal-number recurrence).
pub open spec fn term_spec(i: nat) -> int
    decreases i, i + 1,
{
    if i < 2 {
        1
    } else {
        term_sum(i, i)
    }
}

/// The well-formed dependency lists: entry j carries offset dep_offset(j)
/// and adds exactly when dep_is_add(j) holds.
pub open spec fn subs_entries_ok(s: Seq<(usize, AddOrSub)>) -> bool {
    forall|j: int|
        #![trigger s[j]]
        0 <= j < s.len() ==> {
            &&& s[j].0 as int == dep_offset(j as nat)
            &&& ((s[j].1 == AddOrSub::Add) <==> dep_is_add(j as nat))
        }
}

/// The division in pent is exact: twice pent(k) is k(3k-1).
pub proof fn lemma_pent_exact(k: int)
    ensures
        2 * pent(k) == k * (3 * k - 1),
{
    let q = k / 2;
    lemma_fundamental_div_mod(k, 2);
    if k % 2 == 0 {
        let x = q * (6 * q - 1);
        assert(k * (3 * k - 1) == 2 * x) by (nonlinear_arith)
            requires
                k == 2 * q,
                x == q * (6 * q - 1),
        ;
        lemma_div_multiples_vanish(x, 2);
    } else {
        let x = (2 * q + 1) * (3 * q + 1);
        assert(k * (3 * k - 1) == 2 * x) by (nonlinear_arith)
            requires
                k == 2 * q + 1,
                x == (2 * q + 1) * (3 * q + 1),
        ;
        lemma_div_multiples_vanish(x, 2);
    }
}

/// pent at a negated argument, written over positive k.
pub proof fn lemma_pent_neg(k: int)
    ensures
        pent(-k) == k * (3 * k + 1) / 2,
{
    assert((-k) * (3 * (-k) - 1) == k * (3 * k + 1)) by (nonlinear_arith);
}

/// For k >= 1 the pentagonal numbers dominate both k and its square.
pub proof fn lemma_pent_grows(k: int)
    requires
        1 <= k,
    ensures
        k * k <= pent(k),
        k <= pent(k),
{
    lemma_pent_exact(k);
    assert(2 * (k * k) <= k * (3 * k - 1)) by (nonlinear_arith)
        requires
            1 <= k,
    ;
    assert(k <= k * k) by (nonlinear_arith)
        requires
            1 <= k,
    ;
}

/// The dependency offsets strictly increase with the entry index.
pub proof fn lemma_dep_offset_step(j: nat)
    ensures
        dep_offset(j) < dep_offset((j + 1) as nat),
{
    let q = j as int / 2;
    let k = q + 1;
    lemma_fundamental_div_mod(j as int, 2);
    lemma_fundamental_div_mod(j as int + 1, 2);
    if j % 2 == 0 {
        // j == 2q, so j + 1 is odd and (j + 1) / 2 == q.
        lemma_div_multiples_vanish_fancy(q, 1, 2);
        assert((j + 1) as int / 2 == q);
        lemma_pent_exact(k);
        lemma_pent_exact(-k);
        assert((-k) * (3 * (-k) - 1) == k * (3 * k - 1) + 2 * k) by (nonlinear_arith);
    } else {
        // j == 2q + 1, so j + 1 == 2k and (j + 1) / 2 == k.
        lemma_div_multiples_vanish(k, 2);
        assert((j + 1) as int / 2 == k);
        lemma_pent_exact(-k);
        lemma_pent_exact(k + 1);
        assert((-k) * (3 * (-k) - 1) == k * (3 * k + 1)) by (nonlinear_arith);
        assert((k + 1) * (3 * (k + 1) - 1) == k * (3 * k + 1) + (4 * k + 2)) by (nonlinear_arith);
    }
}

/// Monotonicity of the dependency offsets.
pub proof fn lemma_dep_offset_mono(a: nat, b: nat)
    requires
        a <= b,
    ensures
        dep_offset(a) <= dep_offset(b),
    decreases b - a,
{
    if a < b {
        lemma_dep_offset_step((b - 1) as nat);
        lemma_dep_offset_mono(a, (b - 1) as nat);
    }
}

/// Strict monotonicity of the dependency offsets.
pub proof fn lemma_dep_offset_strict_mono(a: nat, b: nat)
    requires
        a < b,
    ensures
        dep_offset(a) < dep_offset(b),
{
    lemma_dep_offset_step(a);
    lemma_dep_offset_mono((a + 1) as nat, b);
}

/// The offsets of a well-formed dependency list strictly increase along the
/// list.
pub proof fn lemma_subtractions_strictly_increasing(s: Seq<(usize, AddOrSub)>, a: int, b: int)
    requires
        subs_entries_ok(s),
        0 <= a < b < s.len(),
    ensures
        s[a].0 < s[b].0,
{
    lemma_dep_offset_strict_mono(a as nat, b as nat);
}

/// Every dependency offset is at least one more than its entry index; in
/// particular every offset is positive.
pub proof fn lemma_dep_offset_ge(j: nat)
    ensures
        dep_offset(j) >= j + 1,
    decreases j,
{
    if j == 0 {
        assert(pent(1) == 1);
    } else {
        lemma_dep_offset_ge((j - 1) as nat);
        lemma_dep_offset_step((j - 1) as nat);
    }
}

/// Entries beyond the first one whose offset exceeds i contribute nothing
/// to the term at index i.
pub proof fn lemma_term_sum_stable(i: nat, j: nat, m: nat)
    requires
        dep_offset(j) > i,
        j <= m,
    ensures
        term_sum(i, m) == term_sum(i, j),
    decreases m - j,
{
    if j < m {
        lemma_dep_offset_mono(j, (m - 1) as nat);
        lemma_term_sum_stable(i, j, (m - 1) as nat);
    }
}

} // verus!

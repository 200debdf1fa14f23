//! Partition counts by Euler's pentagonal-number recurrence, with a
//! dependency-respecting concurrent evaluation engine: a shared table of
//! write-once slots filled strictly in index order through single-use
//! tickets. The serial evaluator lives here; the table, the tickets and the
//! ticket-driven evaluator live in `multithreaded`.

use vstd::arithmetic::div_mod::{lemma_div_multiples_vanish, lemma_div_multiples_vanish_fancy};
use vstd::prelude::*;

pub mod multithreaded;
pub mod recurrence;
pub mod term;

use crate::multithreaded::calc_partition_count_parallel;
use crate::recurrence::{
    dep_offset, lemma_dep_offset_ge, lemma_pent_grows, lemma_pent_neg, lemma_term_sum_stable,
    pent, subs_entries_ok, term_spec, term_sum,
};
use crate::term::{term_add, term_sub, Term};

verus! {

/// Whether a dependency's contribution is added or subtracted.
#[derive(Clone, Copy, Debug, PartialEq, Eq, Structural)]
pub enum AddOrSub {
    Add,
    Sub,
}

/// Produces the ordered dependency list for target size n: for each entry j,
/// the offset dep_offset(j) with its sign, in strictly ascending offset
/// order, stopping as soon as an offset would exceed n.
#[verifier::loop_isolation(false)]
pub fn generate_index_subtractions(n: usize) -> (r: Vec<(usize, AddOrSub)>)
    ensures
        subs_entries_ok(r@),
        forall|j: int| 0 <= j < r@.len() ==> (#[trigger] r@[j]).0 <= n,
        dep_offset(r@.len() as nat) > n as int,
{
    let mut subs: Vec<(usize, AddOrSub)> = Vec::new();
    let mut k: usize = 1;
    loop
        invariant
            1 <= k,
            k == 1 || k as int <= n as int + 1,
            k >= 2 ==> ((k - 1) as int) * ((k - 1) as int) <= n as int,
            subs@.len() == 2 * (k - 1),
            subs_entries_ok(subs@),
            forall|j: int| 0 <= j < subs@.len() ==> (#[trigger] subs@[j]).0 <= n,
        decreases n + 2 - k,
    {
        proof {
            let ki = k as int;
            if k >= 2 {
                let a = ki - 1;
                assert(a <= 0xffff_ffff) by (nonlinear_arith)
                    requires
                        0 <= a,
                        a * a < 0x1_0000_0000_0000_0000,
                ;
            }
            assert(ki <= 0x1_0000_0000);
            assert(ki * (3 * ki - 1) <= 0x4_0000_0000_0000_0000) by (nonlinear_arith)
                requires
                    1 <= ki <= 0x1_0000_0000,
            ;
            assert(ki * (3 * ki + 1) <= 0x4_0000_0000_0000_0000) by (nonlinear_arith)
                requires
                    1 <= ki <= 0x1_0000_0000,
            ;
        }
        let ku: u128 = k as u128;
        let d1: u128 = ku * (3 * ku - 1);
        let p1: u128 = d1 / 2;
        proof {
            assert(p1 as int == pent(k as int));
            // The next entry would stand at index 2 * (k - 1), which is even
            // and whose pair index is k.
            lemma_div_multiples_vanish(k as int - 1, 2);
            assert(subs@.len() as int / 2 == k - 1);
            assert(dep_offset(subs@.len() as nat) == pent(k as int));
        }
        if p1 > n as u128 {
            return subs;
        }
        let sign = if k % 2 == 1 {
            AddOrSub::Add
        } else {
            AddOrSub::Sub
        };
        subs.push((p1 as usize, sign));
        proof {
            lemma_pent_neg(k as int);
            lemma_div_multiples_vanish_fancy(k as int - 1, 1, 2);
            assert((subs@.len() - 1) as int / 2 == k - 1);
            assert(dep_offset((subs@.len() - 1) as nat) == pent(k as int));
        }
        let d2: u128 = ku * (3 * ku + 1);
        let p2: u128 = d2 / 2;
        proof {
            // The entry after the one just pushed is odd, with pair index k.
            assert(subs@.len() as int / 2 == k - 1);
            assert(dep_offset(subs@.len() as nat) == pent(-(k as int)));
            assert(p2 as int == pent(-(k as int)));
        }
        if p2 > n as u128 {
            return subs;
        }
        subs.push((p2 as usize, sign));
        proof {
            lemma_pent_grows(k as int);
            let ki = k as int;
            if k >= 2 {
                assert(2 * ki <= n as int) by (nonlinear_arith)
                    requires
                        2 <= ki,
                        ki * ki <= n as int,
                ;
            }
            assert(ki < usize::MAX as int);
        }
        k = k + 1;
    }
}

/// Computes the term at `index` from the published prefix `published`:
/// the signed sum, over every dependency entry whose offset is within range,
/// of the already-published term at `index - offset`.
#[verifier::loop_isolation(false)]
pub fn compute_term(index: usize, subs: &Vec<(usize, AddOrSub)>, published: &Vec<Term>) -> (r: Term)
    requires
        2 <= index,
        index <= published@.len(),
        forall|m: int| 0 <= m < index ==> (#[trigger] published@[m])@ == term_spec(m as nat),
        subs_entries_ok(subs@),
        dep_offset(subs@.len() as nat) > index as int,
    ensures
        r@ == term_spec(index as nat),
{
    let mut partial: Term = Term::from_u64(0);
    let mut j: usize = 0;
    while j < subs.len() && subs[j].0 <= index
        invariant
            j <= subs@.len(),
            partial@ == term_sum(index as nat, j as nat),
        decreases subs@.len() - j,
    {
        let off: usize = subs[j].0;
        proof {
            lemma_dep_offset_ge(j as nat);
        }
        let dep: &Term = &published[index - off];
        match subs[j].1 {
            AddOrSub::Add => {
                partial = term_add(&partial, dep);
            },
            AddOrSub::Sub => {
                partial = term_sub(&partial, dep);
            },
        }
        j = j + 1;
    }
    proof {
        let i = index as nat;
        let jn = j as nat;
        if j < subs.len() {
            assert(dep_offset(jn) > i as int);
        }
        if jn <= i {
            lemma_term_sum_stable(i, jn, i);
        } else {
            lemma_dep_offset_ge(i);
            lemma_term_sum_stable(i, i, jn);
        }
    }
    partial
}

/// Single-threaded reference evaluation: fills a growable table of terms in
/// index order, seeded with terms 0 and 1, and returns the term at `n`.
#[verifier::loop_isolation(false)]
pub fn calc_partition_count(n: usize) -> (r: Term)
    requires
        n < usize::MAX,
    ensures
        r@ == term_spec(n as nat),
{
    let subs = generate_index_subtractions(n);
    let mut table: Vec<Term> = Vec::new();
    table.push(Term::from_u64(1));
    table.push(Term::from_u64(1));
    let mut i: usize = 2;
    while i <= n
        invariant
            2 <= i,
            i == 2 || i <= n + 1,
            table@.len() == i,
            forall|m: int| 0 <= m < i ==> (#[trigger] table@[m])@ == term_spec(m as nat),
        decreases n + 1 - i,
    {
        let t = compute_term(i, &subs, &table);
        table.push(t);
        i = i + 1;
    }
    let result: &Term = &table[n];
    result.clone()
}

/// The serial and the concurrent-engine evaluation agree on every input and
/// for every worker count: this function is verified to always return true.
pub fn partition_methods_agree(n: usize, worker_count: usize) -> (r: bool)
    requires
        worker_count >= 1,
        n < usize::MAX,
    ensures
        r,
{
    let serial = calc_partition_count(n);
    let parallel = calc_partition_count_parallel(n, worker_count);
    serial == parallel
}

} // verus!

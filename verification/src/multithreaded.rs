//! The concurrency core: a preallocated table of write-once term slots with
//! a published length, single-use write tickets, and the ticket-driven
//! evaluator. A slot is published exactly once, strictly in index order:
//! a ticket can be redeemed only when the published length equals its index.

use crate::recurrence::term_spec;
use crate::term::Term;
use crate::{compute_term, generate_index_subtractions};
use vstd::prelude::*;

verus! {

/// A preallocated table of partition terms. Its view is the published
/// prefix: the sequence of term values already finalized. Slots beyond the
/// published length do not yet hold a readable value.
pub struct ParallelTable {
    values: Vec<Term>,
    capacity: usize,
    tickets_generated: bool,
}

impl View for ParallelTable {
    type V = Seq<int>;

    closed spec fn view(&self) -> Seq<int> {
        self.values@.map_values(|t: Term| t@)
    }
}

impl ParallelTable {
    /// Number of slots the table was created with; the published prefix
    /// never grows past it.
    pub closed spec fn spec_capacity(&self) -> int {
        self.capacity as int
    }

    /// Whether the write tickets for this table have already been issued.
    pub closed spec fn tickets_issued(&self) -> bool {
        self.tickets_generated
    }

    /// The table invariant: indices 0 and 1 are pre-published, and the
    /// published prefix stays within capacity.
    pub open spec fn wf(&self) -> bool {
        2 <= self@.len() <= self.spec_capacity()
    }

    /// Allocates target_n + 1 slots with indices 0 and 1 pre-published to 1,
    /// so the published length starts at 2.
    pub fn new(target_n: usize) -> (r: ParallelTable)
        requires
            1 <= target_n < usize::MAX,
        ensures
            r.wf(),
            r@ =~= seq![1int, 1int],
            r.spec_capacity() == target_n + 1,
            !r.tickets_issued(),
    {
        let capacity: usize = target_n + 1;
        let mut values: Vec<Term> = Vec::with_capacity(capacity);
        values.push(Term::from_u64(1));
        values.push(Term::from_u64(1));
        let r = ParallelTable { values, capacity, tickets_generated: false };
        proof {
            assert(r@ =~= seq![1int, 1int]);
        }
        r
    }

    /// Non-blocking read: the term at `index` if it is already published,
    /// and nothing for any index at or beyond the published length.
    pub fn get(&self, index: usize) -> (r: Option<&Term>)
        ensures
            match r {
                Some(t) => index < self@.len() && t@ == self@[index as int],
                None => index >= self@.len(),
            },
    {
        if index < self.values.len() {
            Some(&self.values[index])
        } else {
            None
        }
    }

    /// A read-only view of the whole published prefix.
    pub fn get_all_valid(&self) -> (r: &Vec<Term>)
        ensures
            r@.len() == self@.len(),
            forall|j: int| 0 <= j < r@.len() ==> (#[trigger] r@[j])@ == self@[j],
    {
        &self.values
    }

    /// The published length: how many slots are finalized and readable.
    pub fn published_len(&self) -> (r: usize)
        ensures
            r == self@.len(),
    {
        self.values.len()
    }

    /// The number of slots the table was created with.
    pub fn capacity(&self) -> (r: usize)
        ensures
            r == self.spec_capacity(),
    {
        self.capacity
    }
}

/// When redeeming a ticket for `index` is allowed: exactly when the
/// published length equals the index, so publication is strictly in order
/// and each slot is written at most once.
pub open spec fn can_redeem(table: ParallelTable, index: int) -> bool {
    &&& table.wf()
    &&& index == table@.len()
    &&& index < table.spec_capacity()
}

/// A slot is published at most once: as soon as the published length has
/// passed an index, the redemption precondition for that index can never
/// hold again, since every table operation only grows the published prefix.
pub proof fn lemma_redeem_at_most_once(table: ParallelTable, index: int)
    requires
        index < table@.len(),
    ensures
        !can_redeem(table, index),
{
}

/// A single-use capability to publish the term at exactly one index. It is
/// consumed by redemption, so a second redemption of the same ticket is
/// rejected by the type system itself.
pub struct ParallelTableMutIndexTicket {
    index: usize,
}

impl ParallelTableMutIndexTicket {
    /// The index this ticket grants write access to.
    pub closed spec fn spec_index(&self) -> int {
        self.index as int
    }

    pub fn get_index(&self) -> (r: usize)
        ensures
            r == self.spec_index(),
    {
        self.index
    }

    /// Redeems the ticket: publishes `value` at the ticket's index and
    /// advances the published length by one. Redemption out of order is a
    /// fatal invariant violation, ruled out here by the precondition.
    pub fn set(self, table: &mut ParallelTable, value: Term)
        requires
            can_redeem(*old(table), self.spec_index()),
        ensures
            final(table).wf(),
            final(table)@ == old(table)@.push(value@),
            final(table).spec_capacity() == old(table).spec_capacity(),
            final(table).tickets_issued() == old(table).tickets_issued(),
    {
        table.values.push(value);
        proof {
            assert(table@ =~= old(table)@.push(value@));
        }
    }
}

/// Issues the write capabilities for indices 2 .. capacity, at most once
/// per table: a second call on the same table returns nothing ("already
/// issued") instead of granting duplicates.
#[verifier::loop_isolation(false)]
pub fn generate_tickets(table: &mut ParallelTable) -> (r: Option<
    Vec<ParallelTableMutIndexTicket>,
>)
    requires
        old(table).wf(),
    ensures
        final(table).wf(),
        final(table)@ == old(table)@,
        final(table).spec_capacity() == old(table).spec_capacity(),
        final(table).tickets_issued(),
        (r is None) <==> old(table).tickets_issued(),
        r matches Some(tickets) ==> {
            &&& tickets@.len() == final(table).spec_capacity() - 2
            &&& forall|m: int|
                0 <= m < tickets@.len() ==> (#[trigger] tickets@[m]).spec_index() == m + 2
        },
{
    if table.tickets_generated {
        return None;
    }
    table.tickets_generated = true;
    let capacity: usize = table.capacity;
    let mut tickets: Vec<ParallelTableMutIndexTicket> = Vec::new();
    let mut idx: usize = 2;
    while idx < capacity
        invariant
            2 <= idx,
            idx <= capacity,
            tickets@.len() == idx - 2,
            forall|m: int|
                0 <= m < tickets@.len() ==> (#[trigger] tickets@[m]).spec_index() == m + 2,
        decreases capacity - idx,
    {
        tickets.push(ParallelTableMutIndexTicket { index: idx });
        idx = idx + 1;
    }
    Some(tickets)
}

/// Concurrent-engine evaluation of the partition count at `n`: fills a
/// shared table through single-use tickets, each redeemed exactly when all
/// lower indices are published. Returns the same value as the serial
/// evaluation for every worker count: the worker count only affects
/// scheduling in a real pool, never the published values, since the
/// redemption rule forces the one ascending publication order.
#[verifier::loop_isolation(false)]
pub fn calc_partition_count_parallel(n: usize, worker_count: usize) -> (r: Term)
    requires
        worker_count >= 1,
        n < usize::MAX,
    ensures
        r@ == term_spec(n as nat),
{
    if n < 2 {
        return Term::from_u64(1);
    }
    let subs = generate_index_subtractions(n);
    let mut table = ParallelTable::new(n);
    let tickets_opt = generate_tickets(&mut table);
    let mut tickets = match tickets_opt {
        Some(t) => t,
        None => {
            proof {
                assert(false);
            }
            return Term::from_u64(1);
        },
    };
    while tickets.len() > 0
        invariant
            table.wf(),
            table.spec_capacity() == n + 1,
            table@.len() + tickets@.len() == n + 1,
            forall|j: int| 0 <= j < table@.len() ==> #[trigger] table@[j] == term_spec(j as nat),
            forall|m: int|
                0 <= m < tickets@.len() ==> (#[trigger] tickets@[m]).spec_index() == table@.len()
                    + m,
        decreases tickets@.len(),
    {
        let ticket = tickets.remove(0);
        let index = ticket.get_index();
        let value = compute_term(index, &subs, table.get_all_valid());
        ticket.set(&mut table, value);
    }
    let result = table.get(n);
    match result {
        Some(t) => t.clone(),
        None => {
            proof {
                assert(false);
            }
            Term::from_u64(1)
        },
    }
}

} // verus!

use partition_counts::multithreaded::{
    calc_partition_count_parallel, generate_tickets, ParallelTable,
};
use partition_counts::term::Term;
use partition_counts::{
    calc_partition_count, compute_term, generate_index_subtractions, partition_methods_agree,
    AddOrSub,
};

#[test]
fn known_literal_values() {
    assert!(calc_partition_count(0) == Term::from_u64(1));
    assert!(calc_partition_count(1) == Term::from_u64(1));
    assert!(calc_partition_count(2) == Term::from_u64(2));
    assert!(calc_partition_count(3) == Term::from_u64(3));
    assert!(calc_partition_count(4) == Term::from_u64(5));
    assert!(calc_partition_count(5) == Term::from_u64(7));
    assert!(calc_partition_count(10) == Term::from_u64(42));
    assert!(calc_partition_count(20) == Term::from_u64(627));
}

#[test]
fn known_literal_values_parallel() {
    assert!(calc_partition_count_parallel(0, 1) == Term::from_u64(1));
    assert!(calc_partition_count_parallel(1, 2) == Term::from_u64(1));
    assert!(calc_partition_count_parallel(5, 3) == Term::from_u64(7));
    assert!(calc_partition_count_parallel(10, 4) == Term::from_u64(42));
    assert!(calc_partition_count_parallel(20, 8) == Term::from_u64(627));
}

#[test]
fn serial_matches_parallel_up_to_twenty() {
    let worker_counts: [usize; 4] = [1, 2, 8, 64];
    let mut n: usize = 0;
    while n <= 20 {
        let serial = calc_partition_count(n);
        for w in worker_counts {
            let parallel = calc_partition_count_parallel(n, w);
            assert!(serial == parallel);
        }
        n += 1;
    }
}

#[test]
fn worker_count_does_not_change_result() {
    let one = calc_partition_count_parallel(50, 1);
    let two = calc_partition_count_parallel(50, 2);
    let eight = calc_partition_count_parallel(50, 8);
    let sixty_four = calc_partition_count_parallel(50, 64);
    assert!(one == two);
    assert!(two == eight);
    assert!(eight == sixty_four);
}

#[test]
fn methods_agree_is_verified_true() {
    assert!(partition_methods_agree(12, 3));
    assert!(partition_methods_agree(0, 1));
}

#[test]
fn dependency_list_first_four_entries() {
    let subs = generate_index_subtractions(20);
    assert_eq!(subs[0], (1, AddOrSub::Add));
    assert_eq!(subs[1], (2, AddOrSub::Add));
    assert_eq!(subs[2], (5, AddOrSub::Sub));
    assert_eq!(subs[3], (7, AddOrSub::Sub));
}

#[test]
fn dependency_list_strictly_increasing_and_bounded() {
    let n: usize = 100;
    let subs = generate_index_subtractions(n);
    assert!(subs.len() >= 4);
    let mut j: usize = 0;
    while j < subs.len() {
        assert!(subs[j].0 <= n);
        if j + 1 < subs.len() {
            assert!(subs[j].0 < subs[j + 1].0);
        }
        j += 1;
    }
}

#[test]
fn dependency_list_small_targets() {
    let empty = generate_index_subtractions(0);
    assert_eq!(empty.len(), 0);
    let one = generate_index_subtractions(1);
    assert_eq!(one.len(), 1);
    assert_eq!(one[0], (1, AddOrSub::Add));
    let two = generate_index_subtractions(2);
    assert_eq!(two.len(), 2);
    assert_eq!(two[1], (2, AddOrSub::Add));
}

#[test]
fn table_starts_preseeded() {
    let table = ParallelTable::new(5);
    assert_eq!(table.published_len(), 2);
    assert_eq!(table.capacity(), 6);
    assert!(*table.get(0).unwrap() == Term::from_u64(1));
    assert!(*table.get(1).unwrap() == Term::from_u64(1));
}

#[test]
fn get_unavailable_at_or_beyond_published_len() {
    let table = ParallelTable::new(5);
    assert!(table.get(2).is_none());
    assert!(table.get(3).is_none());
    assert!(table.get(5).is_none());
    assert!(table.get(6).is_none());
    assert!(table.get(usize::MAX).is_none());
}

#[test]
fn tickets_issued_only_once() {
    let mut table = ParallelTable::new(5);
    let first = generate_tickets(&mut table);
    assert!(first.is_some());
    let tickets = first.unwrap();
    assert_eq!(tickets.len(), 4);
    assert_eq!(tickets[0].get_index(), 2);
    assert_eq!(tickets[3].get_index(), 5);
    let second = generate_tickets(&mut table);
    assert!(second.is_none());
}

#[test]
fn ticket_redemption_publishes_in_order() {
    let n: usize = 4;
    let subs = generate_index_subtractions(n);
    let mut table = ParallelTable::new(n);
    let tickets = generate_tickets(&mut table).unwrap();
    for ticket in tickets {
        let index = ticket.get_index();
        assert_eq!(table.published_len(), index);
        assert!(table.get(index).is_none());
        let value = compute_term(index, &subs, table.get_all_valid());
        ticket.set(&mut table, value);
        assert_eq!(table.published_len(), index + 1);
        assert!(table.get(index).is_some());
    }
    assert!(*table.get(2).unwrap() == Term::from_u64(2));
    assert!(*table.get(3).unwrap() == Term::from_u64(3));
    assert!(*table.get(4).unwrap() == Term::from_u64(5));
    assert_eq!(table.get_all_valid().len(), n + 1);
}

#[test]
fn larger_value_spot_check() {
    // p(100) = 190569292, well known and still within u64 range.
    assert!(calc_partition_count(100) == Term::from_u64(190569292));
    assert!(calc_partition_count_parallel(100, 6) == Term::from_u64(190569292));
}

use par_map::adaptor::ParMap;
use par_map::engine::{par_map, with_workers, TaskFailure};
use par_map::flat::{flat_with_workers, par_flat_map};
use par_map::packed::{
    flat_map_batch, map_batch, packed_flat_map_with_workers, packed_map_with_workers,
    par_packed_flat_map, par_packed_map,
};
use futures::sync::oneshot::Canceled;
use par_map::engine::{gather, outcome_at, start};
use par_map::flat::flatten;
use par_map::pool::{pool_size, window_capacity};
use par_map::work::{PerItem, Work};
use par_map::packed::{FlatPerBatch, PerBatch};

fn double(x: i32) -> i32 {
    2 * x
}

fn letters(s: &'static str) -> Vec<char> {
    s.chars().collect()
}

fn repeat(x: usize) -> Vec<usize> {
    let mut v = Vec::new();
    for _ in 0..(x % 4) {
        v.push(x);
    }
    v
}

#[test]
fn map_doubles_in_order_then_ends() {
    let mut iter = par_map(vec![1, 2, 3], double);
    assert_eq!(iter.next(), Some(Ok(2)));
    assert_eq!(iter.next(), Some(Ok(4)));
    assert_eq!(iter.next(), Some(Ok(6)));
    assert_eq!(iter.next(), None);
    assert_eq!(iter.next(), None);
}

#[test]
fn map_of_empty_source_ends_at_once() {
    let mut iter = par_map(Vec::<i32>::new(), double);
    assert_eq!(iter.next(), None);
}

#[test]
fn map_equals_sequential_map() {
    let source: Vec<u64> = (0..1000).collect();
    let expected: Vec<u64> = source.iter().map(|x| x * x + 1).collect();
    let got = par_map(source, |x: u64| x * x + 1).collect();
    assert_eq!(got, Ok(expected));
}

#[test]
fn map_keeps_order_with_uneven_work() {
    let source: Vec<u64> = (0..200).collect();
    let work = |x: u64| {
        let mut acc: u64 = x;
        let rounds = if x % 7 == 0 { 200_000 } else { 10 };
        for i in 0..rounds {
            acc = acc.wrapping_mul(6364136223846793005).wrapping_add(i);
        }
        (x, acc)
    };
    let expected: Vec<(u64, u64)> = source.iter().map(|x| work(*x)).collect();
    let got = with_workers(source, work, 4).collect();
    assert_eq!(got, Ok(expected));
}

#[test]
fn map_collect_after_some_results_gives_the_rest() {
    let mut iter = with_workers(vec![1, 2, 3, 4, 5], double, 1);
    assert_eq!(iter.next(), Some(Ok(2)));
    assert_eq!(iter.next(), Some(Ok(4)));
    assert_eq!(iter.collect(), Ok(vec![6, 8, 10]));
}

#[test]
fn window_is_twice_the_workers() {
    let iter = with_workers(vec![1, 2, 3], double, 3);
    assert_eq!(iter.window_size(), 6);
    let iter = with_workers(vec![1, 2, 3], double, 1);
    assert_eq!(iter.window_size(), 2);
}

#[test]
fn outstanding_tasks_never_exceed_the_window() {
    let source: Vec<i32> = (0..50).collect();
    let mut iter = with_workers(source, double, 2);
    assert_eq!(iter.window_size(), 4);
    assert_eq!(iter.outstanding_len(), 4);
    let mut seen = 0;
    while let Some(r) = iter.next() {
        assert_eq!(r, Ok(2 * seen));
        seen += 1;
        assert!(iter.outstanding_len() <= 4);
        let left = (50 - seen) as usize;
        assert_eq!(iter.outstanding_len(), if left < 4 { left } else { 4 });
    }
    assert_eq!(seen, 50);
    assert_eq!(iter.outstanding_len(), 0);
}

#[test]
fn short_source_fills_the_window_only_in_part() {
    let iter = with_workers(vec![1, 2, 3], double, 4);
    assert_eq!(iter.window_size(), 8);
    assert_eq!(iter.outstanding_len(), 3);
}

#[test]
fn spawn_on_used_up_source_changes_nothing() {
    let mut iter = with_workers(vec![1, 2, 3], double, 4);
    assert!(iter.outstanding_len() < iter.window_size());
    iter.spawn();
    assert_eq!(iter.outstanding_len(), 3);
    assert_eq!(iter.collect(), Ok(vec![2, 4, 6]));
}

#[test]
fn flat_map_concatenates_words() {
    let mut iter = par_flat_map(vec!["alpha", "beta", "gamma"], letters);
    let mut merged = String::new();
    while let Some(c) = iter.next() {
        merged.push(c.unwrap());
    }
    assert_eq!(merged, "alphabetagamma");
    assert_eq!(iter.next(), None);
}

#[test]
fn flat_map_collect_concatenates_words() {
    let got = par_flat_map(vec!["alpha", "beta", "gamma"], letters).collect();
    let merged: String = got.unwrap().into_iter().collect();
    assert_eq!(merged, "alphabetagamma");
}

#[test]
fn flat_map_skips_empty_results() {
    let source: Vec<usize> = (0..40).collect();
    let mut expected = Vec::new();
    for x in 0..40usize {
        expected.extend(repeat(x));
    }
    let mut iter = flat_with_workers(source, repeat, 2);
    let mut got = Vec::new();
    while let Some(r) = iter.next() {
        got.push(r.unwrap());
        assert!(iter.outstanding_len() <= iter.window_size());
    }
    assert_eq!(got, expected);
}

#[test]
fn flat_map_of_only_empty_results_ends() {
    let mut iter = flat_with_workers(vec![0usize, 4, 8, 12, 16, 20], repeat, 1);
    assert_eq!(iter.window_size(), 2);
    assert_eq!(iter.next(), None);
    assert_eq!(iter.outstanding_len(), 0);
}

#[test]
fn flat_map_collect_after_some_items_gives_the_rest() {
    let mut iter = flat_with_workers(vec!["ab", "cd"], letters, 1);
    assert_eq!(iter.next(), Some(Ok('a')));
    assert_eq!(iter.collect(), Ok(vec!['b', 'c', 'd']));
}

#[test]
fn packed_map_doubles_in_order() {
    let mut iter = par_packed_map(vec![1, 2, 3], 2, double);
    assert_eq!(iter.next(), Some(Ok(2)));
    assert_eq!(iter.next(), Some(Ok(4)));
    assert_eq!(iter.next(), Some(Ok(6)));
    assert_eq!(iter.next(), None);
    assert_eq!(par_packed_map(vec![1, 2, 3], 2, double).collect(), Ok(vec![2, 4, 6]));
}

#[test]
fn packed_map_submits_one_task_for_each_batch() {
    let source: Vec<i32> = (0..10).collect();
    let mut iter = packed_map_with_workers(source, 4, double, 1);
    assert_eq!(iter.window_size(), 2);
    assert_eq!(iter.outstanding_len(), 2);
    for x in 0..4 {
        assert_eq!(iter.next(), Some(Ok(2 * x)));
    }
    assert_eq!(iter.outstanding_len(), 2);
    for x in 4..8 {
        assert_eq!(iter.next(), Some(Ok(2 * x)));
    }
    assert_eq!(iter.outstanding_len(), 1);
    assert_eq!(iter.collect(), Ok(vec![16, 18]));
}

#[test]
fn packed_map_equals_map_for_every_batch_size() {
    let source: Vec<i32> = (0..37).collect();
    let plain = par_map(source.clone(), double).collect();
    for nb in 1..40usize {
        assert_eq!(packed_map_with_workers(source.clone(), nb, double, 2).collect(), plain);
    }
}

#[test]
fn packed_map_with_batch_size_zero_gives_nothing() {
    assert_eq!(par_packed_map(vec![1, 2, 3], 0, double).collect(), Ok(vec![]));
    assert_eq!(par_packed_map(vec![1, 2, 3], 0, double).next(), None);
}

#[test]
fn packed_flat_map_concatenates_words() {
    let got = par_packed_flat_map(vec!["alpha", "beta", "gamma"], 2, letters).collect();
    let merged: String = got.unwrap().into_iter().collect();
    assert_eq!(merged, "alphabetagamma");
}

#[test]
fn packed_flat_map_equals_flat_map() {
    let source: Vec<usize> = (0..30).collect();
    let plain = par_flat_map(source.clone(), repeat).collect();
    for nb in 1..8usize {
        assert_eq!(packed_flat_map_with_workers(source.clone(), nb, repeat, 3).collect(), plain);
    }
}

#[test]
fn map_batch_maps_each_item() {
    assert_eq!(map_batch(&double, vec![3, 1, 2]), vec![6, 2, 4]);
    assert_eq!(map_batch(&double, vec![]), Vec::<i32>::new());
}

#[test]
fn flat_map_batch_concatenates() {
    assert_eq!(flat_map_batch(&repeat, vec![1, 4, 2, 3]), vec![1, 2, 2, 3, 3, 3]);
}

#[test]
fn pool_has_at_least_one_worker() {
    assert_eq!(pool_size(0), 1);
    assert_eq!(pool_size(1), 1);
    assert_eq!(pool_size(8), 8);
}

#[test]
fn capacity_is_twice_the_pool_size() {
    assert_eq!(window_capacity(1), 2);
    assert_eq!(window_capacity(3), 6);
    assert_eq!(window_capacity(usize::MAX / 2), usize::MAX - 1);
    assert_eq!(window_capacity(usize::MAX / 2 + 1), usize::MAX);
    assert_eq!(window_capacity(usize::MAX), usize::MAX);
}

#[test]
fn failure_names_its_position() {
    let failure = TaskFailure { position: 3 };
    assert_eq!(failure.position, 3);
    assert_ne!(failure, TaskFailure { position: 4 });
}

#[test]
fn map_fed_item_by_item() {
    let mut iter = with_workers(Vec::new(), double, 1);
    assert_eq!(iter.window_size(), 2);
    for x in 1..=2 {
        assert!(iter.has_room());
        iter.feed(x);
    }
    assert_eq!(iter.outstanding_len(), 2);
    let mut got = Vec::new();
    let mut upcoming = 3..=9;
    while let Some(r) = iter.next() {
        got.push(r.unwrap());
        if let Some(x) = upcoming.next() {
            iter.feed(x);
        }
        assert!(iter.outstanding_len() <= 2);
    }
    assert_eq!(got, vec![2, 4, 6, 8, 10, 12, 14, 16, 18]);
}

#[test]
fn flat_map_fed_item_by_item() {
    let mut iter = flat_with_workers(Vec::new(), letters, 1);
    iter.feed("ab");
    assert_eq!(iter.next(), Some(Ok('a')));
    assert!(iter.has_room());
    iter.feed("c");
    assert_eq!(iter.next(), Some(Ok('b')));
    assert_eq!(iter.next(), Some(Ok('c')));
    assert_eq!(iter.next(), None);
}

#[test]
fn zero_workers_asked_for_gives_one() {
    let iter = with_workers(vec![1, 2, 3], double, 0);
    assert_eq!(iter.window_size(), 2);
    assert_eq!(iter.outstanding_len(), 2);
    assert_eq!(iter.collect(), Ok(vec![2, 4, 6]));
}

#[test]
fn default_pool_has_a_window_of_two_at_least() {
    let iter = par_map(vec![1, 2, 3], double);
    assert!(iter.window_size() >= 2);
    assert_eq!(iter.window_size() % 2, 0);
}

#[test]
fn methods_of_a_vector_map_in_order() {
    let a = vec![1, 2, 3];
    let mut iter = a.par_map(|x| 2 * x);
    assert_eq!(iter.next(), Some(Ok(2)));
    assert_eq!(iter.next(), Some(Ok(4)));
    assert_eq!(iter.next(), Some(Ok(6)));
    assert_eq!(iter.next(), None);
}

#[test]
fn methods_of_a_vector_flat_map_and_pack() {
    let words = vec!["alpha", "beta", "gamma"];
    let merged: String = words.clone().par_flat_map(letters).collect().unwrap().into_iter().collect();
    assert_eq!(merged, "alphabetagamma");
    let merged: String =
        words.par_packed_flat_map(2, letters).collect().unwrap().into_iter().collect();
    assert_eq!(merged, "alphabetagamma");
    let mut iter = vec![1, 2, 3, 4, 5, 6, 7].pack(3);
    assert_eq!(Some(vec![1, 2, 3]), iter.next());
    assert_eq!(Some(vec![4, 5, 6]), iter.next());
    assert_eq!(Some(vec![7]), iter.next());
    assert_eq!(None, iter.next());
    assert_eq!(vec![1, 2, 3].par_packed_map(2, |x| 2 * x).collect(), Ok(vec![2, 4, 6]));
}

#[test]
fn work_runs_on_one_item_or_one_batch() {
    assert_eq!(PerItem { f: double }.run(21), 42);
    assert_eq!(PerBatch { f: double }.run(vec![1, 2, 3]), vec![2, 4, 6]);
    assert_eq!(FlatPerBatch { f: repeat }.run(vec![2, 0, 1]), vec![2, 2, 1]);
}

#[test]
fn engine_started_with_batch_work_maps_batches() {
    let batches = vec![vec![1, 2], vec![], vec![3]];
    let mut iter = start(batches, PerBatch { f: double }, 2);
    assert_eq!(iter.next(), Some(Ok(vec![2, 4])));
    assert_eq!(iter.next(), Some(Ok(vec![])));
    assert_eq!(iter.next(), Some(Ok(vec![6])));
    assert_eq!(iter.next(), None);
}

#[test]
fn feeding_a_full_window_leaves_the_item_in_the_source() {
    let mut iter = with_workers(vec![1, 2], double, 1);
    assert_eq!(iter.outstanding_len(), 2);
    iter.feed(3);
    iter.feed(4);
    assert_eq!(iter.outstanding_len(), 2);
    assert_eq!(iter.next(), Some(Ok(2)));
    assert_eq!(iter.outstanding_len(), 2);
    assert_eq!(iter.collect(), Ok(vec![4, 6, 8]));
}

fn double_but_not_three(x: i32) -> i32 {
    if x == 3 {
        panic!("no result for three");
    }
    2 * x
}

fn letters_but_not_beta(s: &'static str) -> Vec<char> {
    if s == "beta" {
        panic!("no result for beta");
    }
    s.chars().collect()
}

#[test]
fn outcome_keeps_a_value_and_names_the_position_of_a_failure() {
    assert_eq!(outcome_at(Ok(7), 3), Ok(7));
    assert_eq!(outcome_at(Err::<i32, Canceled>(Canceled), 3), Err(TaskFailure { position: 3 }));
    assert_eq!(outcome_at(Err::<i32, Canceled>(Canceled), 0), Err(TaskFailure { position: 0 }));
}

#[test]
fn failing_work_is_reported_once_at_its_position() {
    let mut iter = with_workers(vec![1, 2, 3, 4, 5], double_but_not_three, 2);
    assert_eq!(iter.next(), Some(Ok(2)));
    assert_eq!(iter.next(), Some(Ok(4)));
    assert_eq!(iter.next(), Some(Err(TaskFailure { position: 2 })));
    assert_eq!(iter.next(), Some(Ok(8)));
    assert_eq!(iter.next(), Some(Ok(10)));
    assert_eq!(iter.next(), None);
}

#[test]
fn failing_first_item_does_not_stop_the_rest() {
    let mut iter = with_workers(vec![3, 1, 2], double_but_not_three, 1);
    assert_eq!(iter.next(), Some(Err(TaskFailure { position: 0 })));
    assert_eq!(iter.next(), Some(Ok(2)));
    assert_eq!(iter.next(), Some(Ok(4)));
    assert_eq!(iter.next(), None);
}

#[test]
fn collect_gives_the_first_failure() {
    let got = with_workers(vec![1, 3, 2, 3], double_but_not_three, 2).collect();
    assert_eq!(got, Err(TaskFailure { position: 1 }));
    let got = with_workers(vec![1, 2, 4], double_but_not_three, 2).collect();
    assert_eq!(got, Ok(vec![2, 4, 8]));
}

#[test]
fn flat_map_reports_failing_work_after_the_items_before_it() {
    let mut iter = flat_with_workers(vec!["al", "beta", "ga"], letters_but_not_beta, 2);
    assert_eq!(iter.next(), Some(Ok('a')));
    assert_eq!(iter.next(), Some(Ok('l')));
    assert_eq!(iter.next(), Some(Err(TaskFailure { position: 1 })));
    assert_eq!(iter.next(), Some(Ok('g')));
    assert_eq!(iter.next(), Some(Ok('a')));
    assert_eq!(iter.next(), None);
}

#[test]
fn packed_map_reports_the_batch_of_failing_work() {
    let mut iter = packed_map_with_workers(vec![1, 2, 3, 4, 5], 2, double_but_not_three, 2);
    assert_eq!(iter.next(), Some(Ok(2)));
    assert_eq!(iter.next(), Some(Ok(4)));
    assert_eq!(iter.next(), Some(Err(TaskFailure { position: 1 })));
    assert_eq!(iter.next(), Some(Ok(10)));
    assert_eq!(iter.next(), None);
}

#[test]
fn free_slots_and_idle_follow_the_window() {
    let mut iter = with_workers(vec![1, 2, 3], double, 2);
    assert_eq!(iter.free_slots(), 1);
    assert!(!iter.is_idle());
    assert_eq!(iter.next(), Some(Ok(2)));
    assert_eq!(iter.free_slots(), 2);
    iter.feed(7);
    assert_eq!(iter.free_slots(), 1);
    assert_eq!(iter.collect(), Ok(vec![4, 6, 14]));
    let mut flat = flat_with_workers(vec!["a"], letters, 1);
    assert!(!flat.is_idle());
    assert_eq!(flat.free_slots(), 1);
    assert_eq!(flat.next(), Some(Ok('a')));
    assert!(flat.is_idle());
    assert_eq!(flat.free_slots(), 2);
}

#[test]
fn gather_gives_all_values_or_the_first_failure() {
    assert_eq!(gather(vec![Ok(1), Ok(2), Ok(3)]), Ok(vec![1, 2, 3]));
    assert_eq!(gather(Vec::<Result<i32, TaskFailure>>::new()), Ok(vec![]));
    let first = TaskFailure { position: 1 };
    let second = TaskFailure { position: 3 };
    assert_eq!(gather(vec![Ok(1), Err(first), Ok(3), Err(second)]), Err(first));
    assert_eq!(gather(vec![Err::<i32, TaskFailure>(second)]), Err(second));
}

#[test]
fn flatten_keeps_the_order_across_and_within() {
    assert_eq!(flatten(vec![vec![1, 2], vec![], vec![3], vec![4, 5]]), vec![1, 2, 3, 4, 5]);
    assert_eq!(flatten(Vec::<Vec<i32>>::new()), Vec::<i32>::new());
}

#[test]
fn drain_gives_each_result_at_the_place_of_its_item() {
    let got = with_workers(vec![3, 1, 3, 2, 5], double_but_not_three, 2).drain();
    assert_eq!(
        got,
        vec![
            Err(TaskFailure { position: 0 }),
            Ok(2),
            Err(TaskFailure { position: 2 }),
            Ok(4),
            Ok(10),
        ]
    );
    let mut iter = with_workers(vec![1, 3, 2], double_but_not_three, 1);
    assert_eq!(iter.next(), Some(Ok(2)));
    assert_eq!(iter.drain(), vec![Err(TaskFailure { position: 1 }), Ok(4)]);
}

#[test]
fn flat_collect_gives_the_first_failure() {
    let got = flat_with_workers(vec!["al", "beta", "ga"], letters_but_not_beta, 2).collect();
    assert_eq!(got, Err(TaskFailure { position: 1 }));
    let got = packed_flat_map_with_workers(vec!["al", "ga", "beta"], 2, letters_but_not_beta, 2)
        .collect();
    assert_eq!(got, Err(TaskFailure { position: 1 }));
}

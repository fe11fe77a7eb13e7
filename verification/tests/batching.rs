use par_map::pack::pack;
use par_map::window::{into_queue, Window};

#[test]
fn pack_seven_by_three() {
    let mut iter = pack(vec![1, 2, 3, 4, 5, 6, 7], 3);
    assert_eq!(Some(vec![1, 2, 3]), iter.next());
    assert_eq!(Some(vec![4, 5, 6]), iter.next());
    assert_eq!(Some(vec![7]), iter.next());
    assert_eq!(None, iter.next());
    assert_eq!(None, iter.next());
}

#[test]
fn pack_of_empty_source_gives_no_batch() {
    let mut iter = pack(Vec::<u8>::new(), 3);
    assert_eq!(None, iter.next());
    assert_eq!(pack(Vec::<u8>::new(), 1).collect(), Vec::<Vec<u8>>::new());
}

#[test]
fn pack_exact_multiple_has_no_short_batch() {
    let got = pack(vec![1, 2, 3, 4, 5, 6], 3).collect();
    assert_eq!(got, vec![vec![1, 2, 3], vec![4, 5, 6]]);
}

#[test]
fn pack_by_one_gives_singletons() {
    let got = pack(vec!['a', 'b', 'c'], 1).collect();
    assert_eq!(got, vec![vec!['a'], vec!['b'], vec!['c']]);
}

#[test]
fn pack_by_more_than_the_length_gives_one_batch() {
    let got = pack(vec![1, 2, 3], 10).collect();
    assert_eq!(got, vec![vec![1, 2, 3]]);
}

#[test]
fn pack_by_zero_gives_no_batch() {
    let mut iter = pack(vec![1, 2, 3], 0);
    assert_eq!(None, iter.next());
}

#[test]
fn pack_counts_lengths_and_concatenation() {
    for len in 0..30usize {
        for nb in 1..9usize {
            let source: Vec<usize> = (0..len).collect();
            let got = pack(source.clone(), nb).collect();
            assert_eq!(got.len(), (len + nb - 1) / nb);
            for (i, batch) in got.iter().enumerate() {
                if i + 1 < got.len() {
                    assert_eq!(batch.len(), nb);
                } else {
                    assert!(1 <= batch.len() && batch.len() <= nb);
                }
                for (j, item) in batch.iter().enumerate() {
                    assert_eq!(*item, i * nb + j);
                }
            }
            let joined: Vec<usize> = got.into_iter().flatten().collect();
            assert_eq!(joined, source);
        }
    }
}

#[test]
fn pack_collect_after_one_batch_gives_the_rest() {
    let mut iter = pack(vec![1, 2, 3, 4, 5], 2);
    assert_eq!(Some(vec![1, 2]), iter.next());
    assert_eq!(iter.collect(), vec![vec![3, 4], vec![5]]);
}

#[test]
fn queue_keeps_the_order_of_the_vector() {
    let q = into_queue(vec![1, 2, 3]);
    assert_eq!(q.into_iter().collect::<Vec<i32>>(), vec![1, 2, 3]);
    assert!(into_queue(Vec::<i32>::new()).is_empty());
}

#[test]
fn new_window_is_empty() {
    let mut w: Window<i32> = Window::new(4);
    assert_eq!(w.len(), 0);
    assert_eq!(w.capacity(), 4);
    assert!(!w.is_full());
    assert!(w.pop().is_none());
    let w: Window<i32> = Window::new(0);
    assert!(w.is_full());
}

#[test]
fn pack_fed_item_by_item() {
    let mut iter = pack(Vec::new(), 2);
    iter.feed(1);
    iter.feed(2);
    iter.feed(3);
    assert_eq!(Some(vec![1, 2]), iter.next());
    iter.feed(4);
    iter.feed(5);
    assert_eq!(Some(vec![3, 4]), iter.next());
    assert_eq!(Some(vec![5]), iter.next());
    assert_eq!(None, iter.next());
}

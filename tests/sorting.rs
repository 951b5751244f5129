use divide::algorithm::{insertion_sort, quick_sort};
use divide::Slice;
use rand::{thread_rng, Rng};

const ITER_COUNT: usize = 16;

fn test_sorter(sort: fn(&mut Slice<u32>)) {
    let mut rng = thread_rng();
    let mut s1 = vec![0u32; 1024];

    for _ in 0..ITER_COUNT {
        rng.fill(&mut s1[..]);
        let s2 = s1.clone();

        s1.sort_unstable();
        let mut slice = Slice::new(s2).unwrap();
        sort(&mut slice);

        assert_eq!(&s1[..], slice.as_slice());
    }
}

#[test]
fn insertion_sort_test_insertion_sort() {
    let mut slice = Slice::new(vec![5, 8, 7, 7, 4]).unwrap();
    insertion_sort::sort(&mut slice);
    assert_eq!(slice.as_slice(), &[4, 5, 7, 7, 8]);
}

#[test]
fn mod_test_insertion_sort() {
    test_sorter(insertion_sort::sort);
}

#[test]
fn test_quick_sort() {
    test_sorter(quick_sort::sort);
}

#[test]
fn quick_sort_small_example() {
    let mut slice = Slice::new(vec![5, 8, 7, 7, 4]).unwrap();
    quick_sort::sort(&mut slice);
    assert_eq!(slice.as_slice(), &[4, 5, 7, 7, 8]);
}

#[test]
fn quick_sort_partitions_long_input() {
    let input: Vec<u32> = (0..40u32).map(|i| (i * 37 + 11) % 23).collect();
    let mut expected = input.clone();
    expected.sort();
    let mut slice = Slice::new(input).unwrap();
    quick_sort::sort(&mut slice);
    assert_eq!(slice.as_slice(), &expected[..]);
}

#[test]
fn sorts_agree_below_threshold() {
    let input = vec![9u32, 3, 3, 0, 15, 2, 7, 7, 1, 4, 4000000000, 6, 5, 8, 10];
    assert!(input.len() < quick_sort::QSORT_THRESHOLD);
    let mut a = Slice::new(input.clone()).unwrap();
    let mut b = Slice::new(input).unwrap();
    insertion_sort::sort(&mut a);
    quick_sort::sort(&mut b);
    assert_eq!(a.as_slice(), b.as_slice());
}

#[test]
fn sorts_handle_edge_inputs() {
    for input in [vec![1u32], vec![2, 1], vec![3, 3, 3], vec![u32::MAX, 0, u32::MAX], (0..20).rev().collect()] {
        let mut expected = input.clone();
        expected.sort();
        let mut a = Slice::new(input.clone()).unwrap();
        insertion_sort::sort(&mut a);
        assert_eq!(a.as_slice(), &expected[..]);
        let mut b = Slice::new(input).unwrap();
        quick_sort::sort(&mut b);
        assert_eq!(b.as_slice(), &expected[..]);
    }
}

use divide::{Index, Slice};

fn nth<T>(s: &Slice<T>, k: usize) -> Index {
    let mut it = s.iter();
    let mut r = it.next().unwrap();
    for _ in 0..k {
        r = it.next().unwrap();
    }
    r
}

#[test]
fn test_foreign_index() {
    let a1 = vec![1, 2, 3u32];
    let a2 = vec![4, 5, 6u32];

    let s1 = Slice::new(a1).unwrap();
    let mut s2 = Slice::new(a2).unwrap();

    assert!(s1.get(s2.first_idx()).is_none());
    assert!(s2.get(s1.last_idx()).is_none());
    assert_eq!(s1.get(s1.last_idx()), Some(&3));
    assert_eq!(*s2.index_mut(s2.first_idx()), 4);
}

#[test]
fn new_rejects_empty() {
    assert!(Slice::<u32>::new(Vec::new()).is_none());
    let s = Slice::new(vec![7u32]).unwrap();
    assert_eq!(s.len(), 1);
}

#[test]
fn token_accessors() {
    let mut s = Slice::new(vec![10u32, 20, 30, 40, 50]).unwrap();
    assert_eq!(s.first_idx().offset(), 0);
    assert_eq!(s.last_idx().offset(), 4);
    assert_eq!(s.middle_idx().offset(), 2);
    assert_eq!(*s.first(), 10);
    assert_eq!(*s.last(), 50);
    *s.middle() = 31;
    assert_eq!(s.as_slice(), &[10, 20, 31, 40, 50]);
    let idx = s.last_idx();
    assert_eq!(*s.index(idx), 50);
    s.as_mut_slice()[0] = 11;
    assert_eq!(s.as_slice()[0], 11);
}

#[test]
fn enumeration_both_ways() {
    let s = Slice::new(vec![1u32, 2, 3]).unwrap();
    let mut it = s.iter();
    let mut seen = Vec::new();
    while let Some(i) = it.next() {
        seen.push(i.offset());
    }
    assert_eq!(seen, vec![0, 1, 2]);
    let mut it = s.iter_rev();
    let mut seen = Vec::new();
    while let Some(i) = it.next() {
        seen.push(i.offset());
    }
    assert_eq!(seen, vec![2, 1, 0]);
}

#[test]
fn split_left_lengths() {
    let s = Slice::new(vec![1u32, 2, 3, 4, 5]).unwrap();
    let p = nth(&s, 1);
    let (head, tail) = s.split_left(p);
    assert_eq!(head.as_slice(), &[1, 2]);
    assert_eq!(tail.unwrap().as_slice(), &[3, 4, 5]);

    let s = Slice::new(vec![1u32, 2, 3]).unwrap();
    let p = s.last_idx();
    let (head, tail) = s.split_left(p);
    assert_eq!(head.len(), 3);
    assert!(tail.is_none());
}

#[test]
fn split_right_lengths() {
    let s = Slice::new(vec![1u32, 2, 3, 4, 5]).unwrap();
    let p = nth(&s, 2);
    let (head, tail) = s.split_right(p);
    assert_eq!(head.unwrap().as_slice(), &[1, 2]);
    assert_eq!(tail.as_slice(), &[3, 4, 5]);

    let s = Slice::new(vec![1u32, 2, 3]).unwrap();
    let p = s.first_idx();
    let (head, tail) = s.split_right(p);
    assert!(head.is_none());
    assert_eq!(tail.len(), 3);
}

#[test]
fn split_tri_lengths() {
    let s = Slice::new(vec![1u32, 2, 3, 4, 5]).unwrap();
    let p = nth(&s, 1);
    let (head, mid, tail) = s.split_tri(p);
    assert_eq!(head.unwrap().as_slice(), &[1]);
    assert_eq!(mid, 2);
    assert_eq!(tail.unwrap().as_slice(), &[3, 4, 5]);

    let s = Slice::new(vec![1u32, 2]).unwrap();
    let p = s.first_idx();
    let (head, mid, tail) = s.split_tri(p);
    assert!(head.is_none());
    assert_eq!(mid, 1);
    assert_eq!(tail.unwrap().len(), 1);

    let s = Slice::new(vec![1u32, 2]).unwrap();
    let p = s.last_idx();
    let (head, mid, tail) = s.split_tri(p);
    assert_eq!(head.unwrap().len(), 1);
    assert_eq!(mid, 2);
    assert!(tail.is_none());
}

#[test]
fn split_first_and_last() {
    let s = Slice::new(vec![1u32, 2, 3]).unwrap();
    let (first, rest) = s.split_first();
    assert_eq!(first, 1);
    assert_eq!(rest.unwrap().as_slice(), &[2, 3]);
    let s = Slice::new(vec![1u32, 2, 3]).unwrap();
    let (rest, last) = s.split_last();
    assert_eq!(last, 3);
    assert_eq!(rest.unwrap().as_slice(), &[1, 2]);
    let s = Slice::new(vec![9u32]).unwrap();
    let (first, rest) = s.split_first();
    assert_eq!(first, 9);
    assert!(rest.is_none());
    assert_eq!(Slice::new(vec![4u32]).unwrap().into_first(), 4);
}

#[test]
fn translation_through_nested_splits() {
    let s = Slice::new(vec![0u32, 1, 2, 3, 4, 5, 6, 7]).unwrap();
    let root = s.first_idx();
    assert_eq!(s.parent_idx(root).offset(), 0);
    let p = nth(&s, 2);
    let (_, tail) = s.split_left(p);
    let tail = tail.unwrap();
    assert_eq!(tail.as_slice(), &[3, 4, 5, 6, 7]);
    let at_three = nth(&tail, 3);
    assert_eq!(tail.parent_idx(at_three).offset(), 6);
    let q = nth(&tail, 1);
    let (_, inner) = tail.split_right(q);
    assert_eq!(inner.as_slice(), &[4, 5, 6, 7]);
    let local = nth(&inner, 2);
    assert_eq!(*inner.index(local), 6);
    let up = inner.parent_idx(local);
    assert_eq!(up.offset(), 3);
}

#[test]
fn apply_same_token_does_nothing() {
    let mut s = Slice::new(vec![3u32, 1]).unwrap();
    let a = s.first_idx();
    let r = s.apply(a, a, |x: u32, y: u32| (y, x, 1u8));
    assert!(r.is_none());
    assert_eq!(s.as_slice(), &[3, 1]);
    let b = s.last_idx();
    let r = s.apply(a, b, |x: u32, y: u32| (y, x, 1u8));
    assert_eq!(r, Some(1));
    assert_eq!(s.as_slice(), &[1, 3]);
}

#[test]
fn join_restores_parent() {
    let s = Slice::new(vec![1u32, 2, 3, 4]).unwrap();
    let p = nth(&s, 1);
    let (mut head, tail) = s.split_left(p);
    *head.first() = 9;
    let joined = Slice::join(head, tail.unwrap());
    assert_eq!(joined.as_slice(), &[9, 2, 3, 4]);
    assert_eq!(*joined.index(p), 2);
}

#[test]
fn join_tri_restores_parent() {
    let s = Slice::new(vec![5u32, 6, 7, 8, 9]).unwrap();
    let p = nth(&s, 2);
    let (left, mid, right) = s.split_tri(p);
    let mut right = right.unwrap();
    *right.last() = 0;
    let joined = Slice::join_tri(left, mid, Some(right));
    assert_eq!(joined.as_slice(), &[5, 6, 7, 8, 0]);
    assert_eq!(*joined.index(p), 7);

    let s = Slice::new(vec![5u32, 6]).unwrap();
    let p = s.first_idx();
    let (left, mid, right) = s.split_tri(p);
    assert!(left.is_none());
    let joined = Slice::join_tri(left, mid, right);
    assert_eq!(joined.as_slice(), &[5, 6]);
}

#[test]
fn into_parent_after_one_sided_split() {
    let s = Slice::new(vec![1u32, 2, 3]).unwrap();
    let p = s.last_idx();
    let (head, tail) = s.split_left(p);
    assert!(tail.is_none());
    let back = head.into_parent();
    assert_eq!(*back.index(p), 3);
}

#[test]
fn ancestor_translation_through_chain() {
    let s = Slice::new((0u32..10).collect()).unwrap();
    let p = nth(&s, 1);
    let (_, tail) = s.split_left(p);
    let tail = tail.unwrap();
    assert_eq!(tail.as_slice(), &[2, 3, 4, 5, 6, 7, 8, 9]);
    let q = nth(&tail, 3);
    let (_, inner) = tail.split_right(q);
    assert_eq!(inner.as_slice(), &[5, 6, 7, 8, 9]);
    let local = nth(&inner, 2);
    assert_eq!(inner.ancestor_idx(local, 1).offset(), 5);
    assert_eq!(inner.ancestor_idx(local, 0).offset(), 7);
    assert_eq!(inner.parent_idx(local).offset(), 5);
}

#[test]
fn tokens_compare_by_offset() {
    let s = Slice::new(vec![1u32, 2, 3]).unwrap();
    assert!(s.first_idx() == nth(&s, 0));
    assert!(s.first_idx() != s.last_idx());
}

use drain_splice::{Drain, Replacement, Splice, Vector};

fn vector_of<T>(items: Vec<T>) -> Vector<T> {
    Vector::from_vec(items)
}

fn splice_all(items: Vec<i32>, start: usize, end: usize, with: Replacement<i32>) -> Vec<i32> {
    let sp = match Splice::new(vector_of(items), start, end, with) {
        Ok(sp) => sp,
        Err(_) => panic!("range refused"),
    };
    sp.release().into_vec()
}

#[test]
fn drain_forward_yields_range_and_compacts() {
    let v = vector_of(vec!['a', 'b', 'c', 'd', 'e']);
    let mut d = Drain::new(v, 1, 3).ok().unwrap();
    assert_eq!(d.as_slice(), &['b', 'c']);
    assert_eq!(d.next(), Some('b'));
    assert_eq!(d.as_slice(), &['c']);
    assert_eq!(d.next(), Some('c'));
    assert_eq!(d.next(), None);
    let v = d.release();
    assert_eq!(v.len(), 3);
    assert_eq!(v.into_vec(), vec!['a', 'd', 'e']);
}

#[test]
fn drain_backward_yields_reversed() {
    let v = vector_of(vec!['a', 'b', 'c', 'd', 'e']);
    let mut d = Drain::new(v, 1, 3).ok().unwrap();
    assert_eq!(d.next_back(), Some('c'));
    assert_eq!(d.next_back(), Some('b'));
    assert_eq!(d.next_back(), None);
    assert_eq!(d.release().into_vec(), vec!['a', 'd', 'e']);
}

#[test]
fn drain_mixed_ends() {
    let v = vector_of(vec![1, 2, 3, 4, 5, 6]);
    let mut d = Drain::new(v, 1, 5).ok().unwrap();
    assert_eq!(d.size_hint(), (4, Some(4)));
    assert_eq!(d.next(), Some(2));
    assert_eq!(d.next_back(), Some(5));
    assert_eq!(d.len(), 2);
    assert_eq!(d.as_slice(), &[3, 4]);
    assert_eq!(d.release().into_vec(), vec![1, 6]);
}

#[test]
fn drain_exhaustion_is_idempotent() {
    let v = vector_of(vec![1, 2, 3]);
    let mut d = Drain::new(v, 0, 1).ok().unwrap();
    assert_eq!(d.next(), Some(1));
    for _ in 0..5 {
        assert_eq!(d.next(), None);
        assert_eq!(d.next_back(), None);
    }
    assert_eq!(d.size_hint(), (0, Some(0)));
    assert_eq!(d.release().into_vec(), vec![2, 3]);
}

#[test]
fn drain_partial_consumption_matches_none_consumed() {
    let untouched = Drain::new(vector_of(vec![0, 1, 2, 3, 4, 5]), 2, 5).ok().unwrap();
    let mut partly = Drain::new(vector_of(vec![0, 1, 2, 3, 4, 5]), 2, 5).ok().unwrap();
    assert_eq!(partly.next(), Some(2));
    assert_eq!(untouched.release().into_vec(), vec![0, 1, 5]);
    assert_eq!(partly.release().into_vec(), vec![0, 1, 5]);
}

#[test]
fn drain_conserves_elements() {
    let original = vec![5, 3, 5, 1, 3, 9];
    let mut d = Drain::new(vector_of(original.clone()), 1, 4).ok().unwrap();
    let mut all: Vec<i32> = Vec::new();
    while let Some(x) = d.next() {
        all.push(x);
    }
    assert_eq!(all, vec![3, 5, 1]);
    all.extend(d.release().into_vec());
    let mut sorted_all = all.clone();
    sorted_all.sort();
    let mut sorted_original = original.clone();
    sorted_original.sort();
    assert_eq!(sorted_all, sorted_original);
}

#[test]
fn drain_empty_range_leaves_container() {
    let d = Drain::new(vector_of(vec![1, 2, 3]), 1, 1).ok().unwrap();
    assert_eq!(d.len(), 0);
    assert_eq!(d.release().into_vec(), vec![1, 2, 3]);
}

#[test]
fn drain_at_end_is_exhausted_at_once() {
    let mut d = Drain::new(vector_of(vec![1, 2, 3]), 3, 3).ok().unwrap();
    assert_eq!(d.next(), None);
    assert_eq!(d.release().into_vec(), vec![1, 2, 3]);
}

#[test]
fn drain_whole_container() {
    let mut d = Drain::new(vector_of(vec![4, 5, 6]), 0, 3).ok().unwrap();
    assert_eq!(d.next(), Some(4));
    let v = d.release();
    assert_eq!(v.len(), 0);
    assert_eq!(v.capacity(), 3);
}

#[test]
fn drain_suffix_has_no_tail() {
    let mut d = Drain::new(vector_of(vec![1, 2, 3, 4]), 2, 4).ok().unwrap();
    assert_eq!(d.next_back(), Some(4));
    assert_eq!(d.release().into_vec(), vec![1, 2]);
}

#[test]
fn drain_refuses_reversed_range() {
    match Drain::new(vector_of(vec![1, 2, 3]), 2, 1) {
        Ok(_) => panic!("reversed range accepted"),
        Err(v) => assert_eq!(v.into_vec(), vec![1, 2, 3]),
    }
}

#[test]
fn drain_refuses_range_past_length() {
    match Drain::new(vector_of(vec![1, 2, 3]), 1, 4) {
        Ok(_) => panic!("range past the length accepted"),
        Err(v) => assert_eq!(v.into_vec(), vec![1, 2, 3]),
    }
}

#[test]
fn drain_owned_strings_move_out() {
    let v = vector_of(vec![String::from("x"), String::from("y"), String::from("z")]);
    let mut d = Drain::new(v, 0, 2).ok().unwrap();
    assert_eq!(d.next(), Some(String::from("x")));
    let v = d.release();
    assert_eq!(v.into_vec(), vec![String::from("z")]);
}

#[test]
fn splice_replaces_middle() {
    let r = splice_all(vec![0, 1, 2, 3, 4], 1, 3, Replacement::new(vec![7, 8, 9]));
    assert_eq!(r, vec![0, 7, 8, 9, 3, 4]);
}

#[test]
fn splice_inserts_at_empty_range() {
    let r = splice_all(vec![0, 1, 2], 1, 1, Replacement::new(vec![9]));
    assert_eq!(r, vec![0, 9, 1, 2]);
}

#[test]
fn splice_shorter_replacement_closes_gap() {
    let r = splice_all(vec![0, 1, 2, 3, 4], 1, 4, Replacement::new(vec![7]));
    assert_eq!(r, vec![0, 7, 4]);
}

#[test]
fn splice_empty_replacement_acts_as_drain() {
    let r = splice_all(vec![0, 1, 2, 3, 4], 1, 3, Replacement::new(Vec::new()));
    assert_eq!(r, vec![0, 3, 4]);
}

#[test]
fn splice_exact_fit() {
    let r = splice_all(vec![0, 1, 2, 3], 1, 3, Replacement::new(vec![5, 6]));
    assert_eq!(r, vec![0, 5, 6, 3]);
}

#[test]
fn splice_with_zero_estimate_buffers_the_rest() {
    let with = Replacement::with_lower_bound(vec![7, 8, 9, 10], 0);
    assert_eq!(with.lower_bound(), 0);
    let r = splice_all(vec![0, 1, 2, 3], 1, 2, with);
    assert_eq!(r, vec![0, 7, 8, 9, 10, 2, 3]);
}

#[test]
fn splice_with_low_estimate_grows_twice() {
    let with = Replacement::with_lower_bound(vec![7, 8, 9, 10, 11, 12], 3);
    assert_eq!(with.size_hint(), (3, Some(6)));
    let r = splice_all(vec![0, 1, 2, 3], 1, 2, with);
    assert_eq!(r, vec![0, 7, 8, 9, 10, 11, 12, 2, 3]);
}

#[test]
fn splice_with_estimate_above_count_is_capped() {
    let with = Replacement::with_lower_bound(vec![7, 8], 10);
    assert_eq!(with.lower_bound(), 2);
    let r = splice_all(vec![0, 1, 2, 3], 1, 1, with);
    assert_eq!(r, vec![0, 7, 8, 1, 2, 3]);
}

#[test]
fn splice_suffix_appends() {
    let v = vector_of(vec![0, 1, 2, 3]);
    let sp = Splice::new(v, 2, 4, Replacement::new(vec![5, 6, 7])).ok().unwrap();
    let v = sp.release();
    assert_eq!(v.capacity(), 5);
    assert_eq!(v.into_vec(), vec![0, 1, 5, 6, 7]);
}

#[test]
fn splice_suffix_within_capacity_keeps_capacity() {
    let v = vector_of(vec![0, 1, 2, 3, 4]);
    let sp = Splice::new(v, 1, 5, Replacement::new(vec![9, 9])).ok().unwrap();
    let v = sp.release();
    assert_eq!(v.capacity(), 5);
    assert_eq!(v.into_vec(), vec![0, 9, 9]);
}

#[test]
fn splice_hands_out_removed_elements() {
    let v = vector_of(vec![0, 1, 2, 3, 4]);
    let mut sp = Splice::new(v, 1, 4, Replacement::new(vec![8])).ok().unwrap();
    assert_eq!(sp.size_hint(), (3, Some(3)));
    assert_eq!(sp.as_slice(), &[1, 2, 3]);
    assert_eq!(sp.next(), Some(1));
    assert_eq!(sp.next_back(), Some(3));
    assert_eq!(sp.next(), Some(2));
    assert_eq!(sp.next(), None);
    assert_eq!(sp.next_back(), None);
    assert_eq!(sp.release().into_vec(), vec![0, 8, 4]);
}

#[test]
fn splice_refuses_bad_range() {
    match Splice::new(vector_of(vec![1, 2]), 0, 3, Replacement::new(vec![5])) {
        Ok(_) => panic!("range past the length accepted"),
        Err(v) => assert_eq!(v.into_vec(), vec![1, 2]),
    }
}

#[test]
fn replacement_hands_out_in_order() {
    let mut r = Replacement::with_lower_bound(vec![1, 2, 3], 2);
    assert_eq!(r.len(), 3);
    assert_eq!(r.next(), Some(1));
    assert_eq!(r.lower_bound(), 1);
    assert_eq!(r.next(), Some(2));
    assert_eq!(r.next(), Some(3));
    assert_eq!(r.next(), None);
    assert_eq!(r.size_hint(), (0, Some(0)));
}

#[test]
fn vector_push_get_and_grow() {
    let mut v: Vector<u8> = Vector::new();
    assert_eq!(v.capacity(), 0);
    v.push(3);
    v.push(4);
    assert_eq!(v.len(), 2);
    assert_eq!(v.capacity(), 2);
    assert_eq!(v.get(1), Some(&4));
    assert_eq!(v.get(2), None);
    let mut v = Vector::from_vec(vec![1u8, 2]);
    v.extend(&mut Replacement::new(vec![3, 4]));
    assert_eq!(v.into_vec(), vec![1, 2, 3, 4]);
}

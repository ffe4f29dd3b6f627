//! Candidate sets.

use rift_mock_core::bitset::CandidateBits;

#[test]
fn zeros_is_empty_and_all_is_full() {
    let z = CandidateBits::zeros(10);
    assert!(z.is_empty());
    assert_eq!(z.count(), 0);

    let a = CandidateBits::all(10);
    assert!(!a.is_empty());
    assert_eq!(a.count(), 10);
    assert_eq!(a.iter(), (0..10).collect::<Vec<usize>>());
}

#[test]
fn all_masks_bits_past_len() {
    for len in [0usize, 1, 63, 64, 65, 127, 128, 129, 200] {
        let a = CandidateBits::all(len);
        assert_eq!(a.count(), len, "all({len}) must contain exactly len ids");
        assert_eq!(a.iter().into_iter().max(), len.checked_sub(1), "no phantom id past len");
        assert!(!a.contains(len), "all({len}) must not contain id len");
    }
}

#[test]
fn set_and_contains_across_word_boundaries() {
    let mut b = CandidateBits::zeros(200);
    for id in [0usize, 1, 63, 64, 65, 127, 128, 199] {
        b.set(id);
    }
    assert_eq!(b.iter(), vec![0usize, 1, 63, 64, 65, 127, 128, 199]);
    assert!(b.contains(64) && !b.contains(66));
    assert_eq!(b.count(), 8);
}

#[test]
fn set_ignores_out_of_range_ids() {
    let mut b = CandidateBits::zeros(64);
    b.set(64);
    b.set(1000);
    assert!(b.is_empty());
    assert!(!b.contains(64));
}

#[test]
fn intersect_keeps_only_common_ids() {
    let mut a = CandidateBits::zeros(128);
    [1usize, 5, 70].iter().for_each(|i| a.set(*i));
    let mut b = CandidateBits::zeros(128);
    [5usize, 70, 100].iter().for_each(|i| b.set(*i));

    a.intersect_with(&b);
    assert_eq!(a.iter(), vec![5usize, 70]);
}

#[test]
fn all_is_the_intersection_identity() {
    let mut b = CandidateBits::zeros(70);
    [3usize, 69].iter().for_each(|i| b.set(*i));
    let mut acc = CandidateBits::all(70);
    acc.intersect_with(&b);
    assert_eq!(acc, b);
}

#[test]
fn copy_from_overwrites_in_place() {
    let mut src = CandidateBits::zeros(70);
    src.set(9);
    let mut dst = CandidateBits::all(70);
    dst.copy_from(&src);
    assert_eq!(dst, src);
    assert_eq!(dst.iter(), vec![9usize]);
}

#[test]
fn empty_id_space_is_degenerate_but_sound() {
    let a = CandidateBits::all(0);
    assert!(a.is_empty());
    assert_eq!(a.count(), 0);
    assert_eq!(a.iter().into_iter().next(), None);
}

#[test]
fn intersecting_never_adds() {
    let mut a = CandidateBits::zeros(130);
    [0usize, 64, 129].iter().for_each(|i| a.set(*i));
    let before = a.clone();
    let mut other = CandidateBits::all(130);
    other.intersect_with(&CandidateBits::all(130));
    a.intersect_with(&other);
    assert_eq!(a, before);
    a.intersect_with(&CandidateBits::zeros(130));
    assert!(a.is_empty());
}

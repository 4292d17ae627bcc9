use container_ext::SliceExt;
use std::cmp::Ordering;

#[test]
fn is_sorted_accepts_non_decreasing() {
    assert!(SliceExt::is_sorted(&[1, 2, 2, 5][..]));
    assert!(SliceExt::is_sorted(&[-3i64, -3, 0, 9][..]));
}

#[test]
fn is_sorted_rejects_a_descent() {
    assert!(!SliceExt::is_sorted(&[1, 3, 2][..]));
    assert!(!SliceExt::is_sorted(&[2, 1][..]));
    assert!(!SliceExt::is_sorted(&[1, 2, 3, 4, 0][..]));
}

#[test]
fn is_sorted_on_empty_and_single() {
    let empty: [u8; 0] = [];
    assert!(SliceExt::is_sorted(&empty[..]));
    assert!(SliceExt::is_sorted(&[42u8][..]));
}

#[test]
fn is_sorted_agrees_with_adjacent_pairs() {
    let cases: Vec<Vec<u8>> = vec![
        vec![],
        vec![0],
        vec![0, 0],
        vec![0, 1],
        vec![1, 0],
        vec![1, 2, 3],
        vec![1, 3, 2],
        vec![3, 1, 2],
        vec![2, 2, 2, 1],
        vec![0, 255, 255],
    ];
    for s in cases {
        let expected = (1..s.len()).all(|i| s[i] >= s[i - 1]);
        assert_eq!(SliceExt::is_sorted(&s[..]), expected);
    }
}

#[test]
fn is_sorted_by_uses_the_given_order() {
    let descending = |a: &i32, b: &i32| b.cmp(a);
    assert!(SliceExt::is_sorted_by(&[5, 3, 3, 1][..], descending));
    assert!(!SliceExt::is_sorted_by(&[1, 3][..], descending));
}

#[test]
fn is_sorted_by_asks_later_against_earlier() {
    let mut asked: Vec<(i32, i32)> = Vec::new();
    let r = SliceExt::is_sorted_by(&[10, 20, 30][..], |a: &i32, b: &i32| {
        asked.push((*a, *b));
        a.cmp(b)
    });
    assert!(r);
    assert_eq!(asked, vec![(20, 10), (30, 20)]);
}

#[test]
fn is_sorted_by_stops_at_the_first_descent() {
    let mut calls = 0;
    let r = SliceExt::is_sorted_by(&[1, 0, 5, 4, 3][..], |a: &i32, b: &i32| {
        calls += 1;
        a.cmp(b)
    });
    assert!(!r);
    assert_eq!(calls, 1);
}

#[test]
fn is_sorted_by_never_asks_on_short_slices() {
    let mut calls = 0;
    let empty: [i32; 0] = [];
    assert!(SliceExt::is_sorted_by(&empty[..], |_: &i32, _: &i32| {
        calls += 1;
        Ordering::Less
    }));
    assert!(SliceExt::is_sorted_by(&[1][..], |_: &i32, _: &i32| {
        calls += 1;
        Ordering::Less
    }));
    assert_eq!(calls, 0);
}

#[test]
fn is_sorted_by_treats_equal_and_greater_alike() {
    assert!(SliceExt::is_sorted_by(&[3, 1, 2][..], |_: &i32, _: &i32| Ordering::Equal));
    assert!(SliceExt::is_sorted_by(&[3, 1, 2][..], |_: &i32, _: &i32| Ordering::Greater));
    assert!(!SliceExt::is_sorted_by(&[1, 2, 3][..], |_: &i32, _: &i32| Ordering::Less));
}

#[test]
fn is_sorted_by_key_orders_by_the_key() {
    let words = ["a", "bb", "cc", "dddd"];
    assert!(SliceExt::is_sorted_by_key(&words[..], |w: &&str| w.len()));
    let words = ["aaa", "b"];
    assert!(!SliceExt::is_sorted_by_key(&words[..], |w: &&str| w.len()));
    assert!(SliceExt::is_sorted_by_key(&[-1i32, 2, -3][..], |x: &i32| x.abs()));
}

#[test]
fn is_sorted_by_key_agrees_with_is_sorted_on_the_keys() {
    let cases: Vec<Vec<i32>> = vec![
        vec![],
        vec![4],
        vec![-1, 2, -3],
        vec![3, -2, 1],
        vec![0, 0, -1, 1],
        vec![5, -5, 4],
    ];
    for s in cases {
        let keys: Vec<i32> = s.iter().map(|x| x.abs()).collect();
        assert_eq!(
            SliceExt::is_sorted_by_key(&s[..], |x: &i32| x.abs()),
            SliceExt::is_sorted(&keys[..])
        );
    }
}

#[test]
fn try_split_at_gives_both_halves() {
    let s = [1, 2, 3, 4, 5];
    let (a, b) = s[..].try_split_at(2).unwrap();
    assert_eq!(a, &[1, 2][..]);
    assert_eq!(b, &[3, 4, 5][..]);
}

#[test]
fn try_split_at_rejoins_for_every_valid_index() {
    let s = [10u8, 20, 30, 40];
    for k in 0..=s.len() {
        let (a, b) = s[..].try_split_at(k).unwrap();
        assert_eq!(a.len(), k);
        assert_eq!(b.len(), s.len() - k);
        assert_eq!(a.len() + b.len(), s.len());
        let mut joined = a.to_vec();
        joined.extend_from_slice(b);
        assert_eq!(&joined[..], &s[..]);
    }
}

#[test]
fn try_split_at_the_end_gives_an_empty_second_half() {
    let s = [1, 2, 3];
    let (a, b) = s[..].try_split_at(3).unwrap();
    assert_eq!(a, &[1, 2, 3][..]);
    assert!(b.is_empty());
    let (a, b) = s[..].try_split_at(0).unwrap();
    assert!(a.is_empty());
    assert_eq!(b, &[1, 2, 3][..]);
}

#[test]
fn try_split_at_past_the_end_is_refused() {
    let s = [1, 2, 3];
    assert!(s[..].try_split_at(4).is_none());
    assert!(s[..].try_split_at(usize::MAX).is_none());
    let empty: [i32; 0] = [];
    assert!(empty[..].try_split_at(1).is_none());
    assert!(empty[..].try_split_at(0).is_some());
}

#[test]
fn try_split_at_mut_writes_reach_the_slice() {
    let mut s = [1, 2, 3, 4];
    {
        let (a, b) = s[..].try_split_at_mut(1).unwrap();
        assert_eq!(a, &mut [1][..]);
        assert_eq!(b, &mut [2, 3, 4][..]);
        a[0] = 10;
        b[2] = 40;
    }
    assert_eq!(s, [10, 2, 3, 40]);
}

#[test]
fn try_split_at_mut_past_the_end_is_refused() {
    let mut s = [1, 2, 3];
    assert!(s[..].try_split_at_mut(4).is_none());
    assert!(s[..].try_split_at_mut(3).is_some());
    assert_eq!(s, [1, 2, 3]);
}

#[test]
fn split_at_unchecked_gives_both_halves() {
    let s = [7, 8, 9];
    let (a, b) = SliceExt::split_at_unchecked(&s[..], 1);
    assert_eq!(a, &[7][..]);
    assert_eq!(b, &[8, 9][..]);
    let (a, b) = SliceExt::split_at_unchecked(&s[..], 3);
    assert_eq!(a, &[7, 8, 9][..]);
    assert!(b.is_empty());
}

#[test]
fn split_at_unchecked_mut_writes_reach_the_slice() {
    let mut s = [7, 8, 9];
    {
        let (a, b) = SliceExt::split_at_unchecked_mut(&mut s[..], 2);
        a[1] = 80;
        b[0] = 90;
    }
    assert_eq!(s, [7, 80, 90]);
}

#[test]
fn copy_from_x_truncates_to_the_shorter_source() {
    let mut dst = [1, 2, 3, 4, 5];
    let src = [7, 8, 9];
    dst[..].copy_from_x(&src[..]);
    assert_eq!(dst, [7, 8, 9, 4, 5]);
}

#[test]
fn copy_from_x_truncates_to_the_shorter_destination() {
    let mut dst = [1, 2];
    let src = [7, 8, 9];
    dst[..].copy_from_x(&src[..]);
    assert_eq!(dst, [7, 8]);
}

#[test]
fn copy_from_x_with_an_empty_side_changes_nothing() {
    let mut dst = [1, 2];
    let src: [i32; 0] = [];
    dst[..].copy_from_x(&src[..]);
    assert_eq!(dst, [1, 2]);
    let mut none: [i32; 0] = [];
    none[..].copy_from_x(&dst[..]);
    assert_eq!(none, []);
}

#[test]
fn copy_from_ptr_fills_the_whole_slice() {
    let mut dst = [0u8; 3];
    let src = [5u8, 6, 7, 8];
    dst[..].copy_from_ptr(&src[..]);
    assert_eq!(dst, [5, 6, 7]);
    let mut same = [0u8; 4];
    same[..].copy_from_ptr(&src[..]);
    assert_eq!(same, src);
}

#[test]
fn copy_x_moves_towards_the_back_with_overlap() {
    let mut s = [1, 2, 3, 4, 5];
    s[..].copy_x(0, 1, 3);
    assert_eq!(s, [1, 1, 2, 3, 5]);
}

#[test]
fn copy_x_moves_towards_the_front_with_overlap() {
    let mut s = [1, 2, 3, 4, 5];
    s[..].copy_x(1, 0, 4);
    assert_eq!(s, [2, 3, 4, 5, 5]);
}

#[test]
fn copy_x_between_disjoint_ranges() {
    let mut s = [1, 2, 3, 4, 5, 6];
    s[..].copy_x(0, 4, 2);
    assert_eq!(s, [1, 2, 3, 4, 1, 2]);
}

#[test]
fn copy_x_of_nothing_or_onto_itself_changes_nothing() {
    let mut s = [1, 2, 3];
    s[..].copy_x(3, 3, 0);
    assert_eq!(s, [1, 2, 3]);
    s[..].copy_x(0, 0, 3);
    assert_eq!(s, [1, 2, 3]);
}

#[test]
fn copy_x_agrees_with_copy_within() {
    let base = [0u8, 1, 2, 3, 4, 5, 6];
    for s in 0..=base.len() {
        for t in 0..=base.len() {
            for n in 0..=base.len() {
                if s + n <= base.len() && t + n <= base.len() {
                    let mut ours = base;
                    let mut theirs = base;
                    ours[..].copy_x(s, t, n);
                    theirs.copy_within(s..s + n, t);
                    assert_eq!(ours, theirs);
                }
            }
        }
    }
}

use atom_kernel::atoms::{combine, compare, fold, hash, order, project, scale, scan};
use std::cmp::Ordering;

#[test]
fn scan_returns_first_hit_in_order() {
    let data = [3u32, 8, 5, 10];
    let r = scan(&data, |x: &u32| if *x > 4 { Some(*x * 2) } else { None });
    assert_eq!(r, Some(16));
}

#[test]
fn scan_without_hit_is_none() {
    let data = [1u32, 2, 3];
    let r = scan(&data, |x: &u32| if *x > 10 { Some(*x) } else { None });
    assert_eq!(r, None);
    let empty: [u32; 0] = [];
    assert_eq!(scan(&empty, |x: &u32| Some(*x)), None);
}

#[test]
fn hash_exact_values() {
    assert_eq!(hash(0), 0);
    assert_eq!(hash(1), 0x2545f49351b87d2f);
    assert_eq!(hash(42), 0x1d7a1fd6ea89841f);
}

#[test]
fn fold_sums_in_order() {
    let items = [1u64, 2, 3, 4];
    assert_eq!(fold(&items, 0u64, |s: u64, x: u64| s + x), 10);
    // Order matters: building a number digit by digit.
    assert_eq!(fold(&items, 0u64, |s: u64, x: u64| s * 10 + x), 1234);
    let empty: [u64; 0] = [];
    assert_eq!(fold(&empty, 7u64, |s: u64, x: u64| s + x), 7);
}

#[test]
fn project_applies_function() {
    assert_eq!(project(21u32, |x: u32| (x, 0x0fu8)), (21, 0x0f));
}

#[test]
fn scale_wraps_on_overflow() {
    assert_eq!(scale(6, 7), 42);
    assert_eq!(scale(usize::MAX, 2), usize::MAX - 1);
}

#[test]
fn compare_is_strict_less_than() {
    assert!(compare(&1u64, &2u64));
    assert!(!compare(&2u64, &2u64));
    assert!(!compare(&3u64, &2u64));
}

#[test]
fn combine_applies_to_both() {
    assert_eq!(combine(0x1234u64, 0x7u64, |a: u64, f: u64| (a & !0xFFF) | (f & 0xFFF)), 0x1007);
}

#[test]
fn order_is_less_under_the_ordering() {
    assert!(order(&1i32, &2i32, |a: &i32, b: &i32| a.cmp(b)));
    assert!(!order(&2i32, &1i32, |a: &i32, b: &i32| a.cmp(b)));
    assert!(order(&2i32, &1i32, |a: &i32, b: &i32| b.cmp(a)));
    assert!(!order(&1i32, &1i32, |_a: &i32, _b: &i32| Ordering::Equal));
}

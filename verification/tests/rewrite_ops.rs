use trexp::Rewrite;
use trexp::Rewrite::Clean;
use trexp::Rewrite::Dirty;

#[test]
fn queries_read_the_tag() {
    assert!(Clean(3).is_clean());
    assert!(!Clean(3).is_dirty());
    assert!(Dirty(3).is_dirty());
    assert!(!Dirty(3).is_clean());
}

#[test]
fn into_inner_forgets_the_tag() {
    assert_eq!(7, Clean(7).into_inner());
    assert_eq!(7, Dirty(7).into_inner());
}

#[test]
fn inner_ref_borrows_the_payload() {
    let a = Clean(String::from("x"));
    assert_eq!("x", a.inner_ref());
    let b = Dirty(String::from("y"));
    assert_eq!("y", b.inner_ref());
}

#[test]
fn inner_mut_writes_do_not_touch_the_tag() {
    let mut a = Clean(1);
    *a.inner_mut() = 5;
    assert_eq!(Clean(5), a);
    let mut b = Dirty(1);
    *b.inner_mut() = 6;
    assert_eq!(Dirty(6), b);
}

#[test]
fn as_ref_keeps_the_tag() {
    let a = Clean(4);
    assert_eq!(Clean(&4), a.as_ref());
    let b = Dirty(4);
    assert_eq!(Dirty(&4), b.as_ref());
}

#[test]
fn as_mut_lets_the_payload_be_written() {
    let mut a = Clean(1);
    *a.as_mut().into_inner() = 8;
    assert_eq!(Clean(8), a);
    let mut b = Dirty(1);
    assert!(b.as_mut().is_dirty());
    *b.as_mut().into_inner() = 9;
    assert_eq!(Dirty(9), b);
}

#[test]
fn as_deref_reaches_through_the_pointer() {
    let a: Rewrite<Box<i32>> = Clean(Box::new(5));
    assert_eq!(Clean(&5), a.as_deref());
    let b: Rewrite<String> = Dirty(String::from("s"));
    assert_eq!(Dirty("s"), b.as_deref());
}

#[test]
fn as_deref_mut_reaches_through_the_pointer() {
    let mut a: Rewrite<Box<i32>> = Clean(Box::new(5));
    assert_eq!(Clean(&5), a.as_deref_mut());
    let mut b: Rewrite<String> = Dirty(String::from("s"));
    assert_eq!(Dirty("s"), b.as_deref_mut());
}

#[test]
fn map_preserves_tag_and_applies_to_payload() {
    assert_eq!(Clean(6), Clean(3).map(|n: i32| n * 2));
    assert_eq!(Dirty(6), Dirty(3).map(|n: i32| n * 2));
}

#[test]
fn bind_tag_is_sticky() {
    let keep = |n: i32| Clean(n + 1);
    let touch = |n: i32| Dirty(n + 1);
    assert_eq!(Clean(2), Clean(1).bind(keep));
    assert_eq!(Dirty(2), Clean(1).bind(touch));
    assert_eq!(Dirty(2), Dirty(1).bind(keep));
    assert_eq!(Dirty(2), Dirty(1).bind(touch));
}

#[test]
fn try_bind_accumulates_or_fails() {
    let keep = |n: i32| Ok::<_, &str>(Clean(n + 1));
    let touch = |n: i32| Ok::<_, &str>(Dirty(n + 1));
    let fail = |_n: i32| Err::<Rewrite<i32>, &str>("boom");
    assert_eq!(Ok(Clean(2)), Clean(1).try_bind(keep));
    assert_eq!(Ok(Dirty(2)), Clean(1).try_bind(touch));
    assert_eq!(Ok(Dirty(2)), Dirty(1).try_bind(keep));
    assert_eq!(Ok(Dirty(2)), Dirty(1).try_bind(touch));
    assert_eq!(Err("boom"), Clean(1).try_bind(fail));
    assert_eq!(Err("boom"), Dirty(1).try_bind(fail));
}

#[test]
fn copied_and_cloned_keep_the_tag() {
    let n = 9;
    assert_eq!(Clean(9), Clean(&n).copied());
    assert_eq!(Dirty(9), Dirty(&n).copied());
    let s = String::from("z");
    assert_eq!(Clean(String::from("z")), Clean(&s).cloned());
    assert_eq!(Dirty(String::from("z")), Dirty(&s).cloned());
}

#[test]
fn transpose_swaps_the_two_tags() {
    assert_eq!(Dirty(Clean(42)), Clean(Dirty(42)).transpose());
    assert_eq!(Clean(Dirty(42)), Dirty(Clean(42)).transpose());
    assert_eq!(Clean(Clean(42)), Clean(Clean(42)).transpose());
    assert_eq!(Dirty(Dirty(42)), Dirty(Dirty(42)).transpose());
}

#[test]
fn transpose_twice_is_identity() {
    let all = [
        Clean(Clean(1)),
        Clean(Dirty(1)),
        Dirty(Clean(1)),
        Dirty(Dirty(1)),
    ];
    for v in all {
        assert_eq!(v, v.transpose().transpose());
    }
}

#[test]
fn transpose_result_drops_tag_on_failure_only() {
    assert_eq!(Ok(Clean(5)), Clean(Ok::<i32, &str>(5)).transpose_result());
    assert_eq!(Ok(Dirty(5)), Dirty(Ok::<i32, &str>(5)).transpose_result());
    assert_eq!(Err("e"), Clean(Err::<i32, &str>("e")).transpose_result());
    assert_eq!(Err("e"), Dirty(Err::<i32, &str>("e")).transpose_result());
}

#[test]
fn from_vec_is_dirty_iff_any_element_is() {
    let mixed = vec![Clean(1), Dirty(2), Clean(3)];
    assert_eq!(Dirty(vec![1, 2, 3]), Rewrite::from_vec(mixed));
    let all_clean = vec![Clean(1), Clean(2), Clean(3)];
    assert_eq!(Clean(vec![1, 2, 3]), Rewrite::from_vec(all_clean));
    let empty: Vec<Rewrite<i32>> = Vec::new();
    assert_eq!(Clean(Vec::<i32>::new()), Rewrite::from_vec(empty));
    let all_dirty = vec![Dirty(8), Dirty(9)];
    assert_eq!(Dirty(vec![8, 9]), Rewrite::from_vec(all_dirty));
}

use trexp::Rewrite;
use trexp::Rewrite::Clean;
use trexp::Rewrite::Dirty;

fn halve_even(n: i32) -> Rewrite<i32> {
    if n % 2 == 0 {
        Dirty(n / 2)
    } else {
        Clean(n)
    }
}

#[test]
fn repeat_halves_until_odd() {
    assert_eq!(Dirty(5), Rewrite::repeat(10, halve_even));
    assert_eq!(Dirty(3), Rewrite::repeat(24, halve_even));
    assert_eq!(Clean(7), Rewrite::repeat(7, halve_even));
}

#[test]
fn repeat_keeps_the_final_clean_payload() {
    // The stopping application's payload is kept even when it differs in
    // form from the loop's last dirty payload.
    let settle = |n: i32| if n > 0 { Dirty(n - 1) } else { Clean(n) };
    assert_eq!(Dirty(0), Rewrite::repeat(3, settle));
    assert_eq!(Clean(0), Rewrite::repeat(0, settle));
}

#[test]
fn repeat_works_on_owned_payloads() {
    let shrink = |s: String| {
        if s.len() > 1 {
            Dirty(s[..s.len() - 1].to_string())
        } else {
            Clean(s)
        }
    };
    assert_eq!(Dirty(String::from("a")), Rewrite::repeat(String::from("abcd"), shrink));
    assert_eq!(Clean(String::from("a")), Rewrite::repeat(String::from("a"), shrink));
}

#[test]
fn try_repeat_matches_repeat_when_nothing_fails() {
    let step = |n: i32| Ok::<_, &str>(halve_even(n));
    assert_eq!(Ok(Dirty(5)), Rewrite::try_repeat(10, step));
    assert_eq!(Ok(Dirty(3)), Rewrite::try_repeat(24, step));
    assert_eq!(Ok(Clean(7)), Rewrite::try_repeat(7, step));
}

#[test]
fn try_repeat_aborts_on_first_failure() {
    // Counts down, but anything that reaches 2 fails.
    let step = |n: i32| {
        if n == 2 {
            Err("hit two")
        } else if n > 0 {
            Ok(Dirty(n - 1))
        } else {
            Ok(Clean(n))
        }
    };
    assert_eq!(Err("hit two"), Rewrite::try_repeat(5, step));
    assert_eq!(Err("hit two"), Rewrite::try_repeat(2, step));
    assert_eq!(Ok(Dirty(0)), Rewrite::try_repeat(1, step));
    assert_eq!(Ok(Clean(0)), Rewrite::try_repeat(0, step));
}

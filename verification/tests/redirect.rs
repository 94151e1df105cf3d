use golf_submissions::error::Error;
use golf_submissions::redirect::{
    challenge_redirect, challenge_redirect_no_slug, challenge_redirect_with_slug, redirect_language,
};
use golf_submissions::text::push_decimal;

fn decimal_of(n: i32) -> String {
    let mut out = String::new();
    push_decimal(&mut out, n);
    out
}

#[test]
fn decimal_of_small_and_large_numbers() {
    assert_eq!(decimal_of(0), "0");
    assert_eq!(decimal_of(7), "7");
    assert_eq!(decimal_of(9), "9");
    assert_eq!(decimal_of(10), "10");
    assert_eq!(decimal_of(42), "42");
    assert_eq!(decimal_of(100), "100");
    assert_eq!(decimal_of(1_234_567_890), "1234567890");
    assert_eq!(decimal_of(i32::MAX), "2147483647");
}

#[test]
fn decimal_of_negative_numbers() {
    assert_eq!(decimal_of(-1), "-1");
    assert_eq!(decimal_of(-10), "-10");
    assert_eq!(decimal_of(-305), "-305");
    assert_eq!(decimal_of(i32::MIN), "-2147483648");
}

#[test]
fn decimal_agrees_with_the_standard_formatting() {
    let samples: [i32; 9] = [0, 1, -1, 19, 20, 99, -99, 1_000_000, -2_000_000_001];
    for n in samples {
        assert_eq!(decimal_of(n), format!("{}", n));
    }
}

#[test]
fn decimal_is_written_at_the_end() {
    let mut out = String::from("id=");
    push_decimal(&mut out, 15);
    push_decimal(&mut out, -2);
    assert_eq!(out, "id=15-2");
}

#[test]
fn the_language_asked_for_wins() {
    assert_eq!(redirect_language(Some("rust"), Some("c")), "rust");
    assert_eq!(redirect_language(Some("rust"), None), "rust");
}

#[test]
fn the_preferred_language_comes_next() {
    assert_eq!(redirect_language(None, Some("c")), "c");
}

#[test]
fn python_is_the_last_resort() {
    assert_eq!(redirect_language(None, None), "python");
}

#[test]
fn redirect_path_of_a_known_challenge() {
    assert_eq!(
        challenge_redirect_no_slug(12, Some("rust"), Some("c"), Some("two-sum")),
        Ok(String::from("/challenge/12/two-sum/solve/rust"))
    );
    assert_eq!(
        challenge_redirect_no_slug(12, None, Some("c"), Some("two-sum")),
        Ok(String::from("/challenge/12/two-sum/solve/c"))
    );
    assert_eq!(
        challenge_redirect_no_slug(7, None, None, Some("fizz-buzz")),
        Ok(String::from("/challenge/7/fizz-buzz/solve/python"))
    );
    assert_eq!(
        challenge_redirect_no_slug(-3, None, None, Some("")),
        Ok(String::from("/challenge/-3//solve/python"))
    );
}

#[test]
fn redirect_of_an_unknown_challenge_is_not_found() {
    assert_eq!(challenge_redirect_no_slug(12, Some("rust"), Some("c"), None), Err(Error::NotFound));
    assert_eq!(challenge_redirect_no_slug(12, None, None, None), Err(Error::NotFound));
}

#[test]
fn redirect_without_a_language_uses_the_preferred_one() {
    assert_eq!(
        challenge_redirect(12, Some("c"), Some("two-sum")),
        Ok(String::from("/challenge/12/two-sum/solve/c"))
    );
    assert_eq!(
        challenge_redirect(12, None, Some("two-sum")),
        Ok(String::from("/challenge/12/two-sum/solve/python"))
    );
    assert_eq!(challenge_redirect(12, Some("c"), None), Err(Error::NotFound));
}

#[test]
fn redirect_ignores_the_slug_of_the_request() {
    assert_eq!(
        challenge_redirect_with_slug(12, "an-old-name", Some("c"), Some("two-sum")),
        Ok(String::from("/challenge/12/two-sum/solve/c"))
    );
    assert_eq!(
        challenge_redirect_with_slug(12, "two-sum", None, Some("two-sum")),
        Ok(String::from("/challenge/12/two-sum/solve/python"))
    );
    assert_eq!(challenge_redirect_with_slug(12, "two-sum", None, None), Err(Error::NotFound));
}

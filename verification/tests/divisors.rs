use guess_the_number::divisors::divisors;
use guess_the_number::divisors::is_multiple;

#[test]
fn divisors_are_listed_in_rising_order() {
    assert_eq!(divisors(1), vec![1]);
    assert_eq!(divisors(12), vec![1, 2, 3, 4, 6, 12]);
    assert_eq!(divisors(97), vec![1, 97]);
    assert_eq!(divisors(100), vec![1, 2, 4, 5, 10, 20, 25, 50, 100]);
    assert_eq!(divisors(144), vec![1, 2, 3, 4, 6, 8, 9, 12, 16, 18, 24, 36, 48, 72, 144]);
}

#[test]
fn numbers_below_one_have_no_listed_divisor() {
    assert_eq!(divisors(0), Vec::<i32>::new());
    assert_eq!(divisors(-6), Vec::<i32>::new());
    assert_eq!(divisors(i32::MIN), Vec::<i32>::new());
}

#[test]
fn divisors_are_exactly_the_numbers_that_divide() {
    for n in 1..300 {
        let expected: Vec<i32> = (1..=n).filter(|d| n % d == 0).collect();
        assert_eq!(divisors(n), expected, "divisors of {}", n);
    }
}

#[test]
fn is_multiple_tests_divisibility() {
    assert!(is_multiple(12, 3));
    assert!(is_multiple(12, 12));
    assert!(is_multiple(12, 1));
    assert!(is_multiple(0, 5));
    assert!(!is_multiple(12, 5));
    assert!(!is_multiple(5, 12));
}

#[test]
fn nothing_is_a_multiple_of_zero() {
    assert!(!is_multiple(12, 0));
    assert!(!is_multiple(0, 0));
    assert!(!is_multiple(-3, 0));
}

#[test]
fn is_multiple_ignores_signs() {
    assert!(is_multiple(-12, 3));
    assert!(is_multiple(12, -3));
    assert!(is_multiple(-12, -3));
    assert!(!is_multiple(-12, 5));
    assert!(is_multiple(i32::MIN, -1));
    assert!(is_multiple(i32::MIN, 2));
    assert!(is_multiple(i32::MIN, i32::MIN));
    assert!(!is_multiple(7, i32::MIN));
    assert!(!is_multiple(i32::MAX, i32::MIN));
}

#[test]
fn is_multiple_agrees_with_the_remainder() {
    for n in -60..60 {
        for d in -60..60 {
            if d != 0 {
                assert_eq!(is_multiple(n, d), n % d == 0, "{} by {}", n, d);
            }
        }
    }
}

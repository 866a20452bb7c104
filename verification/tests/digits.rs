use guess_the_number::digits::digit_total;
use guess_the_number::digits::digits;
use guess_the_number::digits::has_adjacent_pair;
use guess_the_number::digits::has_member;
use guess_the_number::digits::has_none_of;
use guess_the_number::digits::magnitude_of;
use guess_the_number::digits::reads_same_reversed;

#[test]
fn digits_of_zero_is_one_zero() {
    assert_eq!(digits(0), vec![0]);
}

#[test]
fn digits_come_most_significant_first() {
    assert_eq!(digits(7), vec![7]);
    assert_eq!(digits(10), vec![1, 0]);
    assert_eq!(digits(144), vec![1, 4, 4]);
    assert_eq!(digits(9075), vec![9, 0, 7, 5]);
    assert_eq!(digits(i32::MAX), vec![2, 1, 4, 7, 4, 8, 3, 6, 4, 7]);
}

#[test]
fn digits_of_a_negative_number_are_those_of_its_magnitude() {
    assert_eq!(digits(-42), vec![4, 2]);
    assert_eq!(digits(-1), vec![1]);
    assert_eq!(digits(i32::MIN), vec![2, 1, 4, 7, 4, 8, 3, 6, 4, 8]);
}

#[test]
fn digits_agree_with_the_formatted_number() {
    let mut n: i32 = 0;
    while n < 200_000 {
        let expected: Vec<i32> =
            format!("{}", n).chars().map(|c| c.to_digit(10).unwrap() as i32).collect();
        assert_eq!(digits(n), expected, "digits of {}", n);
        n += 37;
    }
}

#[test]
fn magnitude_of_handles_both_ends_of_the_range() {
    assert_eq!(magnitude_of(0), 0);
    assert_eq!(magnitude_of(5), 5);
    assert_eq!(magnitude_of(-5), 5);
    assert_eq!(magnitude_of(i32::MAX), 2_147_483_647);
    assert_eq!(magnitude_of(i32::MIN), 2_147_483_648);
}

#[test]
fn digit_total_adds_the_digits() {
    assert_eq!(digit_total(0), 0);
    assert_eq!(digit_total(144), 9);
    assert_eq!(digit_total(100), 1);
    assert_eq!(digit_total(60), 6);
    assert_eq!(digit_total(9999), 36);
    assert_eq!(digit_total(-144), 9);
    assert_eq!(digit_total(1_999_999_999), 82);
}

#[test]
fn has_member_finds_what_is_there() {
    let items = vec![1, 4, 4];
    assert!(has_member(&items, 1));
    assert!(has_member(&items, 4));
    assert!(!has_member(&items, 0));
    assert!(!has_member(&items, 14));
    assert!(!has_member(&Vec::new(), 0));
}

#[test]
fn reads_same_reversed_tells_palindromes() {
    assert!(reads_same_reversed(&digits(7)));
    assert!(reads_same_reversed(&digits(121)));
    assert!(reads_same_reversed(&digits(1221)));
    assert!(reads_same_reversed(&digits(0)));
    assert!(!reads_same_reversed(&digits(123)));
    assert!(!reads_same_reversed(&digits(10)));
    assert!(!reads_same_reversed(&digits(1231)));
    assert!(reads_same_reversed(&Vec::new()));
}

#[test]
fn has_adjacent_pair_needs_two_equal_neighbours() {
    assert!(has_adjacent_pair(&digits(144)));
    assert!(has_adjacent_pair(&digits(1001)));
    assert!(has_adjacent_pair(&digits(77)));
    assert!(!has_adjacent_pair(&digits(141)));
    assert!(!has_adjacent_pair(&digits(7)));
    assert!(!has_adjacent_pair(&digits(1212)));
    assert!(!has_adjacent_pair(&Vec::new()));
}

#[test]
fn has_none_of_rejects_any_shared_member() {
    assert!(has_none_of(&vec![1, 4, 4], &vec![0, 2, 3]));
    assert!(has_none_of(&vec![1, 4, 4], &Vec::new()));
    assert!(has_none_of(&Vec::new(), &vec![1]));
    assert!(!has_none_of(&vec![1, 4, 4], &vec![9, 4]));
    assert!(!has_none_of(&vec![1, 4, 4], &vec![1]));
}

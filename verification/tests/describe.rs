use guess_the_number::condition::Condition;
use guess_the_number::describe::push_decimal;
use guess_the_number::describe::push_list;

#[test]
fn each_kind_has_its_sentence() {
    assert_eq!(Condition::LargerThan(50).as_string(), "must be larger than 50");
    assert_eq!(Condition::SmallerThan(344).as_string(), "must be smaller than 344");
    assert_eq!(
        Condition::ContainsDigit(4).as_string(),
        "the number must contain the get digit 4"
    );
    assert_eq!(Condition::SumOfDigits(9).as_string(), "the digits of the number must sum to 9");
    assert_eq!(Condition::HasFactor(12).as_string(), "the number must have the factor 12");
    assert_eq!(Condition::HasMultiple(432).as_string(), "the number must be a factor of 432");
    assert_eq!(Condition::IsSquare(false).as_string(), "the number must not be a square");
    assert_eq!(Condition::IsCube(false).as_string(), "the number must not be a cube");
    assert_eq!(Condition::IsPalindrome(false).as_string(), "the number must not be a palindrome");
    assert_eq!(
        Condition::ContainsDigitAlliteration(false).as_string(),
        "the number must not contain alliteration"
    );
    assert_eq!(
        Condition::DoesntContain(vec![0, 2, 3]).as_string(),
        "the number must not contain the digits [0, 2, 3]"
    );
}

#[test]
fn a_yes_payload_leaves_the_place_of_the_negation_empty() {
    assert_eq!(Condition::IsSquare(true).as_string(), "the number must  be a square");
    assert_eq!(Condition::IsCube(true).as_string(), "the number must  be a cube");
    assert_eq!(Condition::IsPalindrome(true).as_string(), "the number must  be a palindrome");
    assert_eq!(
        Condition::ContainsDigitAlliteration(true).as_string(),
        "the number must  contain alliteration"
    );
}

#[test]
fn yes_and_no_differ_in_the_negation_alone() {
    let pairs = [
        (Condition::IsSquare(true), Condition::IsSquare(false)),
        (Condition::IsCube(true), Condition::IsCube(false)),
        (Condition::IsPalindrome(true), Condition::IsPalindrome(false)),
        (Condition::ContainsDigitAlliteration(true), Condition::ContainsDigitAlliteration(false)),
    ];
    for (yes, no) in pairs {
        let with = no.as_string();
        let without = yes.as_string();
        assert_eq!(with.len(), without.len() + 3);
        let at = with.find("not").unwrap();
        assert_eq!(format!("{}{}", &with[..at], &with[at + 3..]), without);
        assert_eq!(&with[..at], "the number must ");
    }
}

#[test]
fn no_excluded_digit_has_a_sentence_of_its_own() {
    assert_eq!(
        Condition::DoesntContain(Vec::new()).as_string(),
        "Contains every digit from 0 to 9"
    );
}

#[test]
fn one_excluded_digit_stands_alone_in_its_brackets() {
    assert_eq!(
        Condition::DoesntContain(vec![7]).as_string(),
        "the number must not contain the digits [7]"
    );
}

#[test]
fn negative_payloads_carry_their_sign() {
    assert_eq!(Condition::LargerThan(-5).as_string(), "must be larger than -5");
    assert_eq!(Condition::LargerThan(0).as_string(), "must be larger than 0");
    assert_eq!(
        Condition::SmallerThan(i32::MIN).as_string(),
        "must be smaller than -2147483648"
    );
    assert_eq!(Condition::HasMultiple(i32::MAX).as_string(), "the number must be a factor of 2147483647");
}

#[test]
fn sentences_agree_with_the_formatted_payload() {
    let mut n: i32 = -3000;
    while n < 3000 {
        assert_eq!(Condition::LargerThan(n).as_string(), format!("must be larger than {}", n));
        assert_eq!(Condition::SmallerThan(n).as_string(), format!("must be smaller than {}", n));
        assert_eq!(
            Condition::SumOfDigits(n).as_string(),
            format!("the digits of the number must sum to {}", n)
        );
        assert_eq!(
            Condition::HasFactor(n).as_string(),
            format!("the number must have the factor {}", n)
        );
        n += 7;
    }
}

#[test]
fn push_decimal_appends_the_decimal_text() {
    let mut text = String::from("n = ");
    push_decimal(&mut text, 0);
    assert_eq!(text, "n = 0");
    push_decimal(&mut text, -17);
    assert_eq!(text, "n = 0-17");
    push_decimal(&mut text, 9075);
    assert_eq!(text, "n = 0-179075");
    for n in [i32::MIN, -1, 1, 10, 100, i32::MAX] {
        let mut fresh = String::new();
        push_decimal(&mut fresh, n);
        assert_eq!(fresh, format!("{}", n));
    }
}

#[test]
fn push_list_appends_the_list_in_brackets() {
    let mut text = String::from("digits ");
    push_list(&mut text, &Vec::new());
    assert_eq!(text, "digits []");
    for items in [vec![5], vec![0, 2, 3, 5, 6, 7, 8, 9], vec![3, 1, -12, 0, 100]] {
        let mut fresh = String::new();
        push_list(&mut fresh, &items);
        assert_eq!(fresh, format!("{:?}", items));
    }
}

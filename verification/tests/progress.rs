use guess_the_number::condition::Condition;
use guess_the_number::progress::all_met;
use guess_the_number::progress::put_failing_first;
use guess_the_number::progress::show_more;

#[test]
fn all_met_asks_every_condition() {
    let conditions = vec![Condition::LargerThan(50), Condition::SumOfDigits(1)];
    assert!(all_met(&conditions, 100));
    assert!(!all_met(&conditions, 60));
    assert!(!all_met(&conditions, 10));
    assert!(!all_met(&conditions, 1));
}

#[test]
fn all_met_holds_of_no_conditions() {
    assert!(all_met(&Vec::new(), 0));
    assert!(all_met(&Vec::new(), -7));
}

#[test]
fn nothing_is_revealed_while_a_shown_condition_fails() {
    let mut unseen = vec![Condition::SmallerThan(150), Condition::IsSquare(true)];
    let mut seen = vec![Condition::LargerThan(50), Condition::SumOfDigits(1)];
    show_more(&mut unseen, &mut seen, 60);
    assert_eq!(unseen, vec![Condition::SmallerThan(150), Condition::IsSquare(true)]);
    assert_eq!(seen, vec![Condition::LargerThan(50), Condition::SumOfDigits(1)]);
}

#[test]
fn the_first_reveal_needs_no_shown_condition() {
    let mut unseen = vec![Condition::SmallerThan(150), Condition::LargerThan(500)];
    let mut seen = Vec::new();
    show_more(&mut unseen, &mut seen, 100);
    assert_eq!(unseen, vec![Condition::SmallerThan(150)]);
    assert_eq!(seen, vec![Condition::LargerThan(500)]);
}

#[test]
fn revealing_stops_with_the_first_condition_that_fails() {
    let mut unseen = vec![
        Condition::IsCube(false),
        Condition::SumOfDigits(1),
        Condition::LargerThan(80),
        Condition::SmallerThan(150),
        Condition::LargerThan(50),
    ];
    let mut seen = vec![Condition::HasFactor(10)];
    show_more(&mut unseen, &mut seen, 60);
    assert_eq!(unseen, vec![Condition::IsCube(false), Condition::SumOfDigits(1)]);
    assert_eq!(
        seen,
        vec![
            Condition::HasFactor(10),
            Condition::LargerThan(50),
            Condition::SmallerThan(150),
            Condition::LargerThan(80),
        ]
    );
}

#[test]
fn revealing_takes_from_the_end_and_can_take_all() {
    let mut unseen = vec![
        Condition::SumOfDigits(1),
        Condition::SmallerThan(150),
        Condition::LargerThan(50),
    ];
    let mut seen = Vec::new();
    show_more(&mut unseen, &mut seen, 100);
    assert_eq!(unseen, Vec::<Condition>::new());
    assert_eq!(
        seen,
        vec![Condition::LargerThan(50), Condition::SmallerThan(150), Condition::SumOfDigits(1)]
    );
}

#[test]
fn revealing_from_nothing_changes_nothing() {
    let mut unseen = Vec::new();
    let mut seen = vec![Condition::LargerThan(50)];
    show_more(&mut unseen, &mut seen, 100);
    assert_eq!(unseen, Vec::<Condition>::new());
    assert_eq!(seen, vec![Condition::LargerThan(50)]);
}

#[test]
fn a_division_by_zero_stops_the_reveal_like_a_failure() {
    let mut unseen = vec![Condition::LargerThan(-1), Condition::HasMultiple(432)];
    let mut seen = Vec::new();
    show_more(&mut unseen, &mut seen, 0);
    assert_eq!(unseen, vec![Condition::LargerThan(-1)]);
    assert_eq!(seen, vec![Condition::HasMultiple(432)]);
}

#[test]
fn failing_conditions_come_first() {
    let mut seen = vec![Condition::LargerThan(50), Condition::SumOfDigits(1)];
    put_failing_first(&mut seen, 60);
    assert_eq!(seen, vec![Condition::SumOfDigits(1), Condition::LargerThan(50)]);
}

#[test]
fn each_group_keeps_its_order() {
    let mut seen = vec![
        Condition::LargerThan(10),
        Condition::LargerThan(70),
        Condition::LargerThan(20),
        Condition::LargerThan(80),
        Condition::LargerThan(30),
        Condition::LargerThan(90),
        Condition::LargerThan(40),
    ];
    put_failing_first(&mut seen, 60);
    assert_eq!(
        seen,
        vec![
            Condition::LargerThan(70),
            Condition::LargerThan(80),
            Condition::LargerThan(90),
            Condition::LargerThan(10),
            Condition::LargerThan(20),
            Condition::LargerThan(30),
            Condition::LargerThan(40),
        ]
    );
}

#[test]
fn equal_conditions_keep_their_number() {
    let mut seen = vec![
        Condition::IsSquare(true),
        Condition::IsSquare(false),
        Condition::IsSquare(true),
        Condition::IsSquare(false),
        Condition::IsSquare(false),
    ];
    put_failing_first(&mut seen, 144);
    assert_eq!(
        seen,
        vec![
            Condition::IsSquare(false),
            Condition::IsSquare(false),
            Condition::IsSquare(false),
            Condition::IsSquare(true),
            Condition::IsSquare(true),
        ]
    );
}

#[test]
fn an_order_that_is_right_stays() {
    let right = vec![
        Condition::SumOfDigits(1),
        Condition::IsSquare(true),
        Condition::LargerThan(50),
        Condition::SmallerThan(150),
    ];
    let mut seen = right.clone();
    put_failing_first(&mut seen, 60);
    assert_eq!(seen, right);
    let mut all_fail = vec![Condition::LargerThan(70), Condition::LargerThan(80)];
    put_failing_first(&mut all_fail, 60);
    assert_eq!(all_fail, vec![Condition::LargerThan(70), Condition::LargerThan(80)]);
    let mut none = Vec::new();
    put_failing_first(&mut none, 60);
    assert_eq!(none, Vec::<Condition>::new());
}

#[test]
fn the_partition_agrees_with_a_stable_sort() {
    let pool = vec![
        Condition::LargerThan(500),
        Condition::SmallerThan(700),
        Condition::ContainsDigit(4),
        Condition::SumOfDigits(9),
        Condition::HasFactor(12),
        Condition::HasMultiple(1440),
        Condition::IsSquare(true),
        Condition::IsCube(false),
        Condition::IsPalindrome(true),
        Condition::DoesntContain(vec![0, 9]),
        Condition::ContainsDigitAlliteration(true),
        Condition::LargerThan(100),
    ];
    for guess in [0, 7, 12, 44, 100, 144, 441, 505, 600, 720, 999, 1440, -144] {
        let mut parted = pool.clone();
        put_failing_first(&mut parted, guess);
        let mut sorted = pool.clone();
        sorted.sort_by(|c, d| c.check(guess).cmp(&d.check(guess)));
        assert_eq!(parted, sorted, "guess {}", guess);
    }
}

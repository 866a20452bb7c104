//! The sentence that tells the player what a condition asks.

use vstd::prelude::*;
use vstd::string::StringExecFns;
use crate::condition::Condition;
use crate::digits::as_ints;
use crate::digits::decimal_digits;
use crate::digits::digits;

verus! {

/// The character of a decimal digit.
pub open spec fn digit_char(d: int) -> char {
    if d == 0 {
        '0'
    } else if d == 1 {
        '1'
    } else if d == 2 {
        '2'
    } else if d == 3 {
        '3'
    } else if d == 4 {
        '4'
    } else if d == 5 {
        '5'
    } else if d == 6 {
        '6'
    } else if d == 7 {
        '7'
    } else if d == 8 {
        '8'
    } else {
        '9'
    }
}

/// The decimal text of `n`: a minus sign if it is negative, then the digits
/// of its magnitude.
pub open spec fn decimal_text(n: int) -> Seq<char> {
    let numeral = decimal_digits(n).map_values(|d: int| digit_char(d));
    if n < 0 {
        seq!['-'] + numeral
    } else {
        numeral
    }
}

/// The decimal texts of the members of `s`, each two parted by a comma and a
/// space.
pub open spec fn joined_text(s: Seq<int>) -> Seq<char>
    decreases s.len(),
{
    if s.len() == 0 {
        Seq::empty()
    } else if s.len() == 1 {
        decimal_text(s[0])
    } else {
        joined_text(s.drop_last()) + ", "@ + decimal_text(s.last())
    }
}

/// The text of a list: its members in square brackets.
pub open spec fn list_text(s: Seq<int>) -> Seq<char> {
    "["@ + joined_text(s) + "]"@
}

/// What the sentence of a yes-or-no condition has in place of its payload:
/// nothing for yes, the negation for no.
pub open spec fn negation(payload: bool) -> Seq<char> {
    if payload {
        Seq::empty()
    } else {
        "not"@
    }
}

/// The words before the negation in the sentence of a yes-or-no condition.
pub open spec fn sentence_head() -> Seq<char> {
    "the number must "@
}

/// The words after the negation in the sentence of a yes-or-no condition.
pub open spec fn sentence_tail(c: Condition) -> Seq<char> {
    match c {
        Condition::IsSquare(_) => " be a square"@,
        Condition::IsCube(_) => " be a cube"@,
        Condition::IsPalindrome(_) => " be a palindrome"@,
        Condition::ContainsDigitAlliteration(_) => " contain alliteration"@,
        _ => Seq::empty(),
    }
}

/// The sentence that describes `c`.
pub open spec fn describe(c: Condition) -> Seq<char> {
    match c {
        Condition::LargerThan(n) => "must be larger than "@ + decimal_text(n as int),
        Condition::SmallerThan(n) => "must be smaller than "@ + decimal_text(n as int),
        Condition::ContainsDigit(d) => "the number must contain the get digit "@ + decimal_text(
            d as int,
        ),
        Condition::SumOfDigits(s) => "the digits of the number must sum to "@ + decimal_text(
            s as int,
        ),
        Condition::HasFactor(f) => "the number must have the factor "@ + decimal_text(f as int),
        Condition::HasMultiple(m) => "the number must be a factor of "@ + decimal_text(m as int),
        Condition::IsSquare(b) => sentence_head() + negation(b) + sentence_tail(c),
        Condition::IsCube(b) => sentence_head() + negation(b) + sentence_tail(c),
        Condition::IsPalindrome(b) => sentence_head() + negation(b) + sentence_tail(c),
        Condition::DoesntContain(excluded) => if excluded@.len() == 0 {
            "Contains every digit from 0 to 9"@
        } else {
            "the number must not contain the digits "@ + list_text(as_ints(excluded@))
        },
        Condition::ContainsDigitAlliteration(b) => sentence_head() + negation(b) + sentence_tail(c),
    }
}

/// The yes-or-no payload of `c`, if its kind has one.
pub open spec fn yes_or_no(c: Condition) -> Option<bool> {
    match c {
        Condition::IsSquare(b) => Some(b),
        Condition::IsCube(b) => Some(b),
        Condition::IsPalindrome(b) => Some(b),
        Condition::ContainsDigitAlliteration(b) => Some(b),
        _ => None,
    }
}

/// The yes-or-no condition of the kind of `c` with the payload `payload`; a
/// condition of another kind stays as it is.
pub open spec fn with_payload(c: Condition, payload: bool) -> Condition {
    match c {
        Condition::IsSquare(_) => Condition::IsSquare(payload),
        Condition::IsCube(_) => Condition::IsCube(payload),
        Condition::IsPalindrome(_) => Condition::IsPalindrome(payload),
        Condition::ContainsDigitAlliteration(_) => Condition::ContainsDigitAlliteration(payload),
        _ => c,
    }
}

/// The two sentences of a yes-or-no kind differ in the negation alone: the
/// one for no is the one for yes with "not" put in between the same head and
/// the same tail.
pub proof fn lemma_negation_token(c: Condition)
    requires
        yes_or_no(c) is Some,
    ensures
        describe(with_payload(c, true)) == sentence_head() + sentence_tail(c),
        describe(with_payload(c, false)) == sentence_head() + "not"@ + sentence_tail(c),
{
}

/// The one-character text of a decimal digit.
fn digit_str(d: i32) -> (text: &'static str)
    requires
        0 <= d <= 9,
    ensures
        text@ == seq![digit_char(d as int)],
{
    proof {
        reveal_strlit("0");
        reveal_strlit("1");
        reveal_strlit("2");
        reveal_strlit("3");
        reveal_strlit("4");
        reveal_strlit("5");
        reveal_strlit("6");
        reveal_strlit("7");
        reveal_strlit("8");
        reveal_strlit("9");
    }
    if d == 0 {
        "0"
    } else if d == 1 {
        "1"
    } else if d == 2 {
        "2"
    } else if d == 3 {
        "3"
    } else if d == 4 {
        "4"
    } else if d == 5 {
        "5"
    } else if d == 6 {
        "6"
    } else if d == 7 {
        "7"
    } else if d == 8 {
        "8"
    } else {
        "9"
    }
}

/// Appends the decimal text of `n` to `out`.
pub fn push_decimal(out: &mut String, n: i32)
    ensures
        final(out)@ == old(out)@ + decimal_text(n as int),
{
    if n < 0 {
        proof {
            reveal_strlit("-");
        }
        out.append("-");
    }
    let ghost start = out@;
    let ghost numeral = decimal_digits(n as int).map_values(|d: int| digit_char(d));
    let own = digits(n);
    let mut i: usize = 0;
    while i < own.len()
        invariant
            i <= own.len(),
            as_ints(own@) == decimal_digits(n as int),
            forall|j: int| 0 <= j < own@.len() ==> 0 <= #[trigger] own@[j] <= 9,
            numeral == decimal_digits(n as int).map_values(|d: int| digit_char(d)),
            out@ == start + numeral.take(i as int),
        decreases own.len() - i,
    {
        out.append(digit_str(own[i]));
        i += 1;
    }
}

/// Appends the text of the list `items` to `out`.
pub fn push_list(out: &mut String, items: &Vec<i32>)
    ensures
        final(out)@ == old(out)@ + list_text(as_ints(items@)),
{
    out.append("[");
    let ghost start = out@;
    let ghost all = as_ints(items@);
    let mut i: usize = 0;
    while i < items.len()
        invariant
            i <= items.len(),
            all == as_ints(items@),
            out@ == start + joined_text(all.take(i as int)),
        decreases items.len() - i,
    {
        if i > 0 {
            out.append(", ");
        }
        push_decimal(out, items[i]);
        assert(all.take(i + 1).drop_last() =~= all.take(i as int));
        i += 1;
    }
    out.append("]");
    assert(all.take(i as int) =~= all);
}

/// Appends the sentence of a yes-or-no condition with the given tail.
fn push_yes_or_no(out: &mut String, payload: bool, tail: &str)
    ensures
        final(out)@ == old(out)@ + sentence_head() + negation(payload) + tail@,
{
    out.append("the number must ");
    if !payload {
        out.append("not");
    }
    out.append(tail);
}

impl Condition {
    /// The sentence that describes the condition.
    pub fn as_string(&self) -> (text: String)
        ensures
            text@ == describe(*self),
    {
        let mut text = String::new();
        match self {
            Condition::LargerThan(n) => {
                text.append("must be larger than ");
                push_decimal(&mut text, *n);
            },
            Condition::SmallerThan(n) => {
                text.append("must be smaller than ");
                push_decimal(&mut text, *n);
            },
            Condition::ContainsDigit(d) => {
                text.append("the number must contain the get digit ");
                push_decimal(&mut text, *d);
            },
            Condition::SumOfDigits(s) => {
                text.append("the digits of the number must sum to ");
                push_decimal(&mut text, *s);
            },
            Condition::HasFactor(f) => {
                text.append("the number must have the factor ");
                push_decimal(&mut text, *f);
            },
            Condition::HasMultiple(m) => {
                text.append("the number must be a factor of ");
                push_decimal(&mut text, *m);
            },
            Condition::IsSquare(b) => {
                push_yes_or_no(&mut text, *b, " be a square");
            },
            Condition::IsCube(b) => {
                push_yes_or_no(&mut text, *b, " be a cube");
            },
            Condition::IsPalindrome(b) => {
                push_yes_or_no(&mut text, *b, " be a palindrome");
            },
            Condition::DoesntContain(excluded) => {
                if excluded.len() == 0 {
                    text.append("Contains every digit from 0 to 9");
                } else {
                    text.append("the number must not contain the digits ");
                    push_list(&mut text, excluded);
                }
            },
            Condition::ContainsDigitAlliteration(b) => {
                push_yes_or_no(&mut text, *b, " contain alliteration");
            },
        }
        text
    }
}

} // verus!

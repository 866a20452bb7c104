//! Reading a guess from the text that the player typed.

use vstd::prelude::*;

verus! {

/// The text is no whole number in decimal notation that fits 32 bits.
#[derive(Clone, Copy, PartialEq, Eq, Debug)]
pub struct ParseError;

/// The test that keeps every character but the space.
pub open spec fn not_space() -> spec_fn(char) -> bool {
    |c: char| c != ' '
}

/// `text` with its spaces taken out.
pub open spec fn without_spaces(text: Seq<char>) -> Seq<char> {
    text.filter(not_space())
}

/// `c` is one of the characters 0 to 9.
pub open spec fn is_digit(c: char) -> bool {
    '0' <= c <= '9'
}

/// Every member of `s` is a digit.
pub open spec fn only_digits(s: Seq<char>) -> bool {
    forall|i: int| 0 <= i < s.len() ==> is_digit(#[trigger] s[i])
}

/// The number that a decimal numeral stands for; each character counts by
/// its distance from the character 0.
pub open spec fn numeral_value(s: Seq<char>) -> int
    decreases s.len(),
{
    if s.len() == 0 {
        0
    } else {
        numeral_value(s.drop_last()) * 10 + (s.last() as int - '0' as int)
    }
}

/// The number that `s` denotes: an optional sign, plus or minus, then one or
/// more digits and nothing else, with a value that fits 32 bits. Any other
/// text denotes nothing.
pub open spec fn integer_value(s: Seq<char>) -> Option<int> {
    let signed = s.len() > 0 && (s[0] == '-' || s[0] == '+');
    let numeral = if signed {
        s.skip(1)
    } else {
        s
    };
    let value = if signed && s[0] == '-' {
        -numeral_value(numeral)
    } else {
        numeral_value(numeral)
    };
    if numeral.len() > 0 && only_digits(numeral) && i32::MIN <= value <= i32::MAX {
        Some(value)
    } else {
        None
    }
}

/// The guess that the typed text stands for: the number that it denotes once
/// its spaces are taken out.
pub open spec fn guess_value(text: Seq<char>) -> Option<int> {
    integer_value(without_spaces(text))
}

/// The characters of `text` other than spaces, in their order.
pub fn strip_spaces(text: &str) -> (out: Vec<char>)
    ensures
        out@ == without_spaces(text@),
{
    let mut out: Vec<char> = Vec::new();
    let len = text.unicode_len();
    let mut i: usize = 0;
    proof {
        reveal(Seq::filter);
    }
    while i < len
        invariant
            i <= len == text@.len(),
            out@ == text@.take(i as int).filter(not_space()),
        decreases len - i,
    {
        let c = text.get_char(i);
        proof {
            assert(text@.take(i + 1) =~= text@.take(i as int).push(c));
            text@.take(i as int).lemma_filter_push(c, not_space());
        }
        if c != ' ' {
            out.push(c);
        }
        i += 1;
    }
    assert(text@.take(len as int) =~= text@);
    out
}

/// A numeral of digits alone stands for at least as much as any of its
/// beginnings.
pub proof fn lemma_numeral_grows(s: Seq<char>, k: int)
    requires
        0 <= k <= s.len(),
        only_digits(s),
    ensures
        0 <= numeral_value(s.take(k)) <= numeral_value(s),
    decreases s.len() - k,
{
    if k == s.len() {
        assert(s.take(k) =~= s);
        lemma_numeral_not_negative(s);
    } else {
        lemma_numeral_grows(s, k + 1);
        assert(s.take(k + 1).drop_last() =~= s.take(k));
        lemma_numeral_not_negative(s.take(k));
    }
}

/// A numeral of digits alone stands for no negative number.
pub proof fn lemma_numeral_not_negative(s: Seq<char>)
    requires
        only_digits(s),
    ensures
        0 <= numeral_value(s),
    decreases s.len(),
{
    if s.len() > 0 {
        lemma_numeral_not_negative(s.drop_last());
    }
}

/// The number that `chars` denotes, or an error where they denote none.
#[verifier::loop_isolation(false)]
pub fn parse_integer(chars: &Vec<char>) -> (r: Result<i32, ParseError>)
    ensures
        match r {
            Ok(value) => integer_value(chars@) == Some(value as int),
            Err(_) => integer_value(chars@) is None,
        },
{
    let len = chars.len();
    if len == 0 {
        return Err(ParseError);
    }
    let negative = chars[0] == '-';
    let start: usize = if negative || chars[0] == '+' {
        1
    } else {
        0
    };
    if start == len {
        return Err(ParseError);
    }
    let ghost numeral = chars@.skip(start as int);
    assert(chars@.skip(0) =~= chars@);
    let mut total: i64 = 0;
    let mut i: usize = start;
    while i < len
        invariant
            start <= i <= len == chars@.len(),
            numeral == chars@.skip(start as int),
            only_digits(numeral.take(i - start)),
            total == numeral_value(numeral.take(i - start)),
            0 <= total <= i32::MAX + 1,
        decreases len - i,
    {
        let c = chars[i];
        if !('0' <= c && c <= '9') {
            assert(!is_digit(numeral[i - start]));
            return Err(ParseError);
        }
        let digit: i64 = (c as u32 - '0' as u32) as i64;
        proof {
            let longer = numeral.take(i + 1 - start);
            assert(longer.drop_last() =~= numeral.take(i - start));
            assert(only_digits(longer));
        }
        total = total * 10 + digit;
        if total > i32::MAX as i64 + 1 {
            proof {
                if only_digits(numeral) {
                    lemma_numeral_grows(numeral, i + 1 - start);
                }
            }
            return Err(ParseError);
        }
        i += 1;
    }
    assert(numeral.take(len - start) =~= numeral);
    if negative {
        Ok((-total) as i32)
    } else if total <= i32::MAX as i64 {
        Ok(total as i32)
    } else {
        Err(ParseError)
    }
}

/// The guess that the typed text stands for, or an error where it stands
/// for none.
pub fn parse_guess(text: &str) -> (r: Result<i32, ParseError>)
    ensures
        match r {
            Ok(value) => guess_value(text@) == Some(value as int),
            Err(_) => guess_value(text@) is None,
        },
{
    parse_integer(&strip_spaces(text))
}

} // verus!

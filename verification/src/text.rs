//! Reading numbers out of text.

use vstd::prelude::*;
use vstd::string::StrSliceExecFns;

verus! {

pub open spec fn is_digit(c: char) -> bool {
    '0' <= c <= '9'
}

pub open spec fn all_digits(text: Seq<char>) -> bool {
    forall|i: int| 0 <= i < text.len() ==> is_digit(#[trigger] text[i])
}

/// The number that decimal digits denote.
pub open spec fn number_of(digits: Seq<char>) -> int
    decreases digits.len(),
{
    if digits.len() == 0 {
        0
    } else {
        10 * number_of(digits.drop_last()) + (digits.last() as int - '0' as int)
    }
}

/// The number that the text denotes if it is one or more decimal digits
/// and the number is at most `max`.
pub open spec fn unsigned_of(text: Seq<char>, max: int) -> Option<int> {
    if text.len() > 0 && all_digits(text) && number_of(text) <= max {
        Some(number_of(text))
    } else {
        None
    }
}

/// The number that the text denotes if it is decimal digits, with or
/// without a plus sign before them, and the number is at most `max`.
pub open spec fn plus_unsigned_of(text: Seq<char>, max: int) -> Option<int> {
    if text.len() > 0 && text[0] == '+' {
        unsigned_of(text.subrange(1, text.len() as int), max)
    } else {
        unsigned_of(text, max)
    }
}

/// A longer run of digits denotes no smaller number.
pub proof fn lemma_number_grows(digits: Seq<char>, k: int)
    requires
        all_digits(digits),
        0 <= k <= digits.len(),
    ensures
        0 <= number_of(digits.take(k)) <= number_of(digits),
    decreases digits.len() - k,
{
    if k == digits.len() {
        assert(digits.take(k) =~= digits);
        lemma_number_floor(digits);
    } else {
        lemma_number_grows(digits, k + 1);
        assert(digits.take(k + 1).drop_last() =~= digits.take(k));
        assert(is_digit(digits[k]));
        lemma_number_floor(digits.take(k));
        assert(all_digits(digits.take(k))) by {
            assert forall|i: int| 0 <= i < k implies is_digit(#[trigger] digits.take(k)[i]) by {
                assert(is_digit(digits[i]));
            }
        }
    }
}

/// Digits denote no negative number.
pub proof fn lemma_number_floor(digits: Seq<char>)
    requires
        all_digits(digits),
    ensures
        number_of(digits) >= 0,
    decreases digits.len(),
{
    if digits.len() > 0 {
        assert(all_digits(digits.drop_last())) by {
            assert forall|i: int| 0 <= i < digits.len() - 1 implies is_digit(
                #[trigger] digits.drop_last()[i],
            ) by {
                assert(is_digit(digits[i]));
            }
        }
        lemma_number_floor(digits.drop_last());
        assert(is_digit(digits.last()));
    }
}

/// Reads the characters from `from` up to `to` as an unsigned decimal
/// number of at most `max`.
pub fn parse_unsigned(text: &str, from: usize, to: usize, max: u32) -> (number: Option<u32>)
    requires
        from <= to <= text@.len(),
    ensures
        match number {
            Some(n) => unsigned_of(text@.subrange(from as int, to as int), max as int) == Some(
                n as int,
            ),
            None => unsigned_of(text@.subrange(from as int, to as int), max as int) is None,
        },
{
    let ghost digits = text@.subrange(from as int, to as int);
    if from == to {
        return None;
    }
    let mut value: u64 = 0;
    let mut i: usize = from;
    while i < to
        invariant
            from <= i <= to <= text@.len(),
            digits == text@.subrange(from as int, to as int),
            all_digits(digits.take(i - from)),
            value == number_of(digits.take(i - from)),
            value <= max,
        decreases to - i,
    {
        let c = text.get_char(i);
        let ghost read = digits.take(i - from);
        let ghost longer = digits.take(i - from + 1);
        proof {
            assert(longer.drop_last() =~= read);
            assert(longer.last() == c);
        }
        if c < '0' || c > '9' {
            assert(!is_digit(digits[i - from]));
            return None;
        }
        let digit: u64 = (c as u32 - '0' as u32) as u64;
        proof {
            assert forall|j: int| 0 <= j < longer.len() implies is_digit(#[trigger] longer[j]) by {
                if j < read.len() {
                    assert(read[j] == longer[j]);
                }
            }
        }
        let next: u64 = value * 10 + digit;
        if next > max as u64 {
            proof {
                if all_digits(digits) {
                    lemma_number_grows(digits, i - from + 1);
                }
            }
            return None;
        }
        value = next;
        i += 1;
    }
    proof {
        assert(digits.take(to - from) =~= digits);
    }
    Some(value as u32)
}

/// Reads the whole text as an unsigned decimal number of at most `max`
/// that a plus sign may precede.
pub fn parse_plus_unsigned(text: &str, max: u32) -> (number: Option<u32>)
    ensures
        match number {
            Some(n) => plus_unsigned_of(text@, max as int) == Some(n as int),
            None => plus_unsigned_of(text@, max as int) is None,
        },
{
    let n = text.unicode_len();
    assert(text@.subrange(0, n as int) =~= text@);
    if n > 0 && text.get_char(0) == '+' {
        parse_unsigned(text, 1, n, max)
    } else {
        parse_unsigned(text, 0, n, max)
    }
}

/// Whether the characters of `text` from `at` on begin with `word`.
pub fn has_at(text: &str, at: usize, word: &str) -> (r: bool)
    requires
        at <= text@.len(),
    ensures
        r == (at + word@.len() <= text@.len() && text@.subrange(
            at as int,
            at + word@.len(),
        ) == word@),
{
    let n = text.unicode_len();
    let m = word.unicode_len();
    if m > n - at {
        return false;
    }
    let mut i: usize = 0;
    while i < m
        invariant
            i <= m,
            m == word@.len(),
            n == text@.len(),
            at + m <= n,
            forall|j: int| 0 <= j < i ==> text@[at + j] == word@[j],
        decreases m - i,
    {
        if text.get_char(at + i) != word.get_char(i) {
            assert(text@.subrange(at as int, at + m)[i as int] == text@[at + i]);
            return false;
        }
        i += 1;
    }
    assert(text@.subrange(at as int, at + m) =~= word@);
    true
}

/// Whether the two texts are the same.
pub fn same_text(a: &str, b: &str) -> (r: bool)
    ensures
        r == (a@ == b@),
{
    let n = a.unicode_len();
    if n != b.unicode_len() {
        return false;
    }
    let found = has_at(a, 0, b);
    assert(a@.subrange(0, n as int) =~= a@);
    found
}

/// The place of the first `c` in the text, if there is one.
pub fn find_char(text: &str, c: char) -> (place: Option<usize>)
    ensures
        match place {
            Some(i) => i < text@.len() && text@[i as int] == c && forall|j: int|
                0 <= j < i ==> text@[j] != c,
            None => forall|j: int| 0 <= j < text@.len() ==> text@[j] != c,
        },
{
    let n = text.unicode_len();
    let mut i: usize = 0;
    while i < n
        invariant
            i <= n,
            n == text@.len(),
            forall|j: int| 0 <= j < i ==> text@[j] != c,
        decreases n - i,
    {
        if text.get_char(i) == c {
            return Some(i);
        }
        i += 1;
    }
    None
}

} // verus!

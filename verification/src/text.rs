//! Decimal numbers as text, as the fields of a snapshot row hold them.

use vstd::prelude::*;
use vstd::string::*;

verus! {

/// Calls `String::push` of std: the text grows by the one character at its end.
#[verifier::external_body]
pub(crate) fn push_char(s: &mut String, c: char)
    ensures
        final(s)@ == old(s)@.push(c),
{
    s.push(c);
}

/// The number that a decimal digit stands for.
pub open spec fn decimal_digit(c: char) -> Option<nat> {
    if c == '0' {
        Some(0nat)
    } else if c == '1' {
        Some(1nat)
    } else if c == '2' {
        Some(2nat)
    } else if c == '3' {
        Some(3nat)
    } else if c == '4' {
        Some(4nat)
    } else if c == '5' {
        Some(5nat)
    } else if c == '6' {
        Some(6nat)
    } else if c == '7' {
        Some(7nat)
    } else if c == '8' {
        Some(8nat)
    } else if c == '9' {
        Some(9nat)
    } else {
        None
    }
}

/// The decimal digit that stands for a number below ten.
pub open spec fn decimal_char(v: nat) -> char {
    if v == 0 {
        '0'
    } else if v == 1 {
        '1'
    } else if v == 2 {
        '2'
    } else if v == 3 {
        '3'
    } else if v == 4 {
        '4'
    } else if v == 5 {
        '5'
    } else if v == 6 {
        '6'
    } else if v == 7 {
        '7'
    } else if v == 8 {
        '8'
    } else {
        '9'
    }
}

/// The number that a run of decimal digits stands for, the first digit
/// weighing most.
pub open spec fn decimal_value(digits: Seq<char>) -> nat
    decreases digits.len(),
{
    if digits.len() == 0 {
        0
    } else {
        decimal_value(digits.drop_last()) * 10 + match decimal_digit(digits.last()) {
            Some(v) => v,
            None => 0,
        }
    }
}

/// The text without one leading plus sign.
pub open spec fn strip_plus(s: Seq<char>) -> Seq<char> {
    if s.len() > 0 && s[0] == '+' {
        s.subrange(1, s.len() as int)
    } else {
        s
    }
}

/// Whether every character is a decimal digit.
pub open spec fn all_decimal(digits: Seq<char>) -> bool {
    forall|i: int| 0 <= i < digits.len() ==> decimal_digit(#[trigger] digits[i]) is Some
}

/// The number that a text stands for: one plus sign at most, then one decimal
/// digit or more, and a value of at most `max`. Any other text stands for
/// none.
pub open spec fn parse_decimal_spec(s: Seq<char>, max: nat) -> Option<nat> {
    let digits = strip_plus(s);
    if digits.len() > 0 && all_decimal(digits) && decimal_value(digits) <= max {
        Some(decimal_value(digits))
    } else {
        None
    }
}

/// A number in decimal digits, without leading zeros.
pub open spec fn decimal_text(n: nat) -> Seq<char>
    decreases n,
{
    if n < 10 {
        seq![decimal_char(n)]
    } else {
        decimal_text(n / 10).push(decimal_char(n % 10))
    }
}

fn digit_of_char(c: char) -> (r: Option<u8>)
    ensures
        r is Some <==> decimal_digit(c) is Some,
        r matches Some(v) ==> decimal_digit(c) == Some(v as nat),
{
    if c == '0' {
        Some(0)
    } else if c == '1' {
        Some(1)
    } else if c == '2' {
        Some(2)
    } else if c == '3' {
        Some(3)
    } else if c == '4' {
        Some(4)
    } else if c == '5' {
        Some(5)
    } else if c == '6' {
        Some(6)
    } else if c == '7' {
        Some(7)
    } else if c == '8' {
        Some(8)
    } else if c == '9' {
        Some(9)
    } else {
        None
    }
}

fn char_of_digit(v: u32) -> (c: char)
    requires
        v < 10,
    ensures
        c == decimal_char(v as nat),
{
    if v == 0 {
        '0'
    } else if v == 1 {
        '1'
    } else if v == 2 {
        '2'
    } else if v == 3 {
        '3'
    } else if v == 4 {
        '4'
    } else if v == 5 {
        '5'
    } else if v == 6 {
        '6'
    } else if v == 7 {
        '7'
    } else if v == 8 {
        '8'
    } else {
        '9'
    }
}

/// Reads a decimal number of at most `max` from a text.
pub fn parse_decimal(s: &str, max: u32) -> (r: Option<u32>)
    ensures
        r is Some <==> parse_decimal_spec(s@, max as nat) is Some,
        r matches Some(v) ==> parse_decimal_spec(s@, max as nat) == Some(v as nat),
{
    let n = s.unicode_len();
    let start: usize = if n > 0 && s.get_char(0) == '+' {
        1
    } else {
        0
    };
    let ghost digits = strip_plus(s@);
    if start == n {
        return None;
    }
    let limit: u64 = max as u64 + 1;
    let mut acc: u64 = 0;
    let mut k: usize = start;
    while k < n
        invariant
            start <= k <= n,
            n == s@.len(),
            digits == strip_plus(s@),
            digits.len() == n - start,
            forall|j: int| 0 <= j < digits.len() ==> digits[j] == s@[start + j],
            limit == max + 1,
            all_decimal(digits.subrange(0, k - start)),
            acc <= limit,
            acc == if decimal_value(digits.subrange(0, k - start)) < limit {
                decimal_value(digits.subrange(0, k - start))
            } else {
                limit as nat
            },
        decreases n - k,
    {
        let c = s.get_char(k);
        let ghost before = digits.subrange(0, k - start);
        let ghost after = digits.subrange(0, k + 1 - start);
        proof {
            assert(after.drop_last() =~= before);
            assert(after.last() == c);
        }
        match digit_of_char(c) {
            None => {
                proof {
                    assert(digits[k - start] == c);
                }
                return None;
            },
            Some(v) => {
                let next: u64 = acc * 10 + v as u64;
                acc = if next < limit {
                    next
                } else {
                    limit
                };
                proof {
                    assert forall|j: int| 0 <= j < after.len() implies decimal_digit(#[trigger] after[j]) is Some by {
                        if j < before.len() {
                            assert(after[j] == before[j]);
                        }
                    }
                }
            },
        }
        k += 1;
    }
    proof {
        assert(digits.subrange(0, n - start) =~= digits);
    }
    if acc < limit {
        Some(acc as u32)
    } else {
        None
    }
}

/// Appends a number in decimal digits to a text.
pub fn push_decimal(s: &mut String, x: u32)
    ensures
        final(s)@ == old(s)@ + decimal_text(x as nat),
    decreases x,
{
    if x >= 10 {
        push_decimal(s, x / 10);
    }
    push_char(s, char_of_digit(x % 10));
    proof {
        if x >= 10 {
            assert(final(s)@ =~= old(s)@ + decimal_text(x as nat));
        } else {
            assert(final(s)@ =~= old(s)@ + decimal_text(x as nat));
        }
    }
}

/// A number as a text of decimal digits.
pub fn format_decimal(x: u32) -> (r: String)
    ensures
        r@ == decimal_text(x as nat),
{
    let mut s = String::new();
    push_decimal(&mut s, x);
    proof {
        assert(s@ =~= decimal_text(x as nat));
    }
    s
}

/// What `decimal_text` writes is digits only, at least one, and stands for
/// the number written.
pub proof fn lemma_decimal_text_value(n: nat)
    ensures
        decimal_text(n).len() > 0,
        all_decimal(decimal_text(n)),
        decimal_value(decimal_text(n)) == n,
    decreases n,
{
    if n < 10 {
        let t = decimal_text(n);
        assert(t.drop_last() =~= Seq::<char>::empty());
        assert(decimal_value(t.drop_last()) == 0);
    } else {
        lemma_decimal_text_value(n / 10);
        let head = decimal_text(n / 10);
        let t = decimal_text(n);
        assert(t.drop_last() =~= head);
        assert forall|i: int| 0 <= i < t.len() implies decimal_digit(#[trigger] t[i]) is Some by {
            if i < head.len() {
                assert(t[i] == head[i]);
            }
        }
    }
}

/// Reading back what was written gives the number again: the decimal text of
/// a number of at most `max` stands for that number.
pub proof fn lemma_decimal_round_trip(n: nat, max: nat)
    requires
        n <= max,
    ensures
        parse_decimal_spec(decimal_text(n), max) == Some(n),
{
    lemma_decimal_text_value(n);
    let t = decimal_text(n);
    assert(decimal_digit(t[0]) is Some);
    assert(strip_plus(t) == t);
}

} // verus!

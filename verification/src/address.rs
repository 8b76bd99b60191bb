//! 20-byte account addresses and their hexadecimal text.

use crate::text::push_char;
use vstd::prelude::*;
use vstd::string::*;

verus! {

/// The address of an account, a pool or a token: 20 bytes.
#[derive(Clone, Copy, Debug)]
pub struct Address {
    pub bytes: [u8; 20],
}

impl View for Address {
    type V = Seq<u8>;

    open spec fn view(&self) -> Seq<u8> {
        self.bytes@
    }
}

/// The number that a hexadecimal digit of either case stands for.
pub open spec fn hex_digit(c: char) -> Option<nat> {
    if c == '0' {
        Some(0nat)
    } else if c == '1' {
        Some(1nat)
    } else if c == '2' {
        Some(2nat)
    } else if c == '3' {
        Some(3nat)
    } else if c == '4' {
        Some(4nat)
    } else if c == '5' {
        Some(5nat)
    } else if c == '6' {
        Some(6nat)
    } else if c == '7' {
        Some(7nat)
    } else if c == '8' {
        Some(8nat)
    } else if c == '9' {
        Some(9nat)
    } else if c == 'a' || c == 'A' {
        Some(10nat)
    } else if c == 'b' || c == 'B' {
        Some(11nat)
    } else if c == 'c' || c == 'C' {
        Some(12nat)
    } else if c == 'd' || c == 'D' {
        Some(13nat)
    } else if c == 'e' || c == 'E' {
        Some(14nat)
    } else if c == 'f' || c == 'F' {
        Some(15nat)
    } else {
        None
    }
}

/// The lower-case hexadecimal digit that stands for a number below sixteen.
pub open spec fn hex_char(v: nat) -> char {
    if v == 0 {
        '0'
    } else if v == 1 {
        '1'
    } else if v == 2 {
        '2'
    } else if v == 3 {
        '3'
    } else if v == 4 {
        '4'
    } else if v == 5 {
        '5'
    } else if v == 6 {
        '6'
    } else if v == 7 {
        '7'
    } else if v == 8 {
        '8'
    } else if v == 9 {
        '9'
    } else if v == 10 {
        'a'
    } else if v == 11 {
        'b'
    } else if v == 12 {
        'c'
    } else if v == 13 {
        'd'
    } else if v == 14 {
        'e'
    } else {
        'f'
    }
}

/// The blanks that may stand anywhere between hexadecimal digits.
pub open spec fn is_hex_blank(c: char) -> bool {
    c == ' ' || c == '\r' || c == '\n' || c == '\t'
}

/// The text without one leading `0x`.
pub open spec fn strip_0x(s: Seq<char>) -> Seq<char> {
    if s.len() >= 2 && s[0] == '0' && s[1] == 'x' {
        s.subrange(2, s.len() as int)
    } else {
        s
    }
}

/// The characters of a text that are no blanks, in their order.
pub open spec fn without_blanks(s: Seq<char>) -> Seq<char>
    decreases s.len(),
{
    if s.len() == 0 {
        s
    } else if is_hex_blank(s.last()) {
        without_blanks(s.drop_last())
    } else {
        without_blanks(s.drop_last()).push(s.last())
    }
}

/// Whether every character is a hexadecimal digit or a blank.
pub open spec fn all_hex_or_blank(s: Seq<char>) -> bool {
    forall|i: int| 0 <= i < s.len() ==> is_hex_blank(#[trigger] s[i]) || hex_digit(s[i]) is Some
}

/// The byte that the two hexadecimal digits at `2 * i` and `2 * i + 1` stand for.
pub open spec fn hex_pair_value(digits: Seq<char>, i: int) -> nat {
    (match hex_digit(digits[2 * i]) {
        Some(v) => v,
        None => 0,
    }) * 16 + (match hex_digit(digits[2 * i + 1]) {
        Some(v) => v,
        None => 0,
    })
}

/// The bytes that a run of hexadecimal digits stands for, two digits a byte.
pub open spec fn hex_bytes(digits: Seq<char>) -> Seq<u8> {
    Seq::new(digits.len() / 2, |i: int| hex_pair_value(digits, i) as u8)
}

/// Whether a text stands for an address: after one `0x` at most, 40
/// hexadecimal digits of either case, with blanks anywhere among them and
/// nothing else.
pub open spec fn address_text_valid(s: Seq<char>) -> bool {
    all_hex_or_blank(strip_0x(s)) && without_blanks(strip_0x(s)).len() == 40
}

/// The 20 bytes that a valid address text stands for.
pub open spec fn address_text_bytes(s: Seq<char>) -> Seq<u8> {
    hex_bytes(without_blanks(strip_0x(s)))
}

/// The text of 20 bytes: `0x` and 40 lower-case hexadecimal digits.
pub open spec fn address_text(bytes: Seq<u8>) -> Seq<char> {
    seq!['0', 'x'] + Seq::new(
        2 * bytes.len(),
        |i: int|
            if i % 2 == 0 {
                hex_char((bytes[i / 2] / 16) as nat)
            } else {
                hex_char((bytes[i / 2] % 16) as nat)
            },
    )
}

fn value_of_hex_char(c: char) -> (r: Option<u8>)
    ensures
        r is Some <==> hex_digit(c) is Some,
        r matches Some(v) ==> hex_digit(c) == Some(v as nat) && v < 16,
{
    if c == '0' {
        Some(0)
    } else if c == '1' {
        Some(1)
    } else if c == '2' {
        Some(2)
    } else if c == '3' {
        Some(3)
    } else if c == '4' {
        Some(4)
    } else if c == '5' {
        Some(5)
    } else if c == '6' {
        Some(6)
    } else if c == '7' {
        Some(7)
    } else if c == '8' {
        Some(8)
    } else if c == '9' {
        Some(9)
    } else if c == 'a' || c == 'A' {
        Some(10)
    } else if c == 'b' || c == 'B' {
        Some(11)
    } else if c == 'c' || c == 'C' {
        Some(12)
    } else if c == 'd' || c == 'D' {
        Some(13)
    } else if c == 'e' || c == 'E' {
        Some(14)
    } else if c == 'f' || c == 'F' {
        Some(15)
    } else {
        None
    }
}

fn hex_char_of_value(v: u8) -> (c: char)
    requires
        v < 16,
    ensures
        c == hex_char(v as nat),
{
    if v == 0 {
        '0'
    } else if v == 1 {
        '1'
    } else if v == 2 {
        '2'
    } else if v == 3 {
        '3'
    } else if v == 4 {
        '4'
    } else if v == 5 {
        '5'
    } else if v == 6 {
        '6'
    } else if v == 7 {
        '7'
    } else if v == 8 {
        '8'
    } else if v == 9 {
        '9'
    } else if v == 10 {
        'a'
    } else if v == 11 {
        'b'
    } else if v == 12 {
        'c'
    } else if v == 13 {
        'd'
    } else if v == 14 {
        'e'
    } else {
        'f'
    }
}

fn is_blank(c: char) -> (r: bool)
    ensures
        r == is_hex_blank(c),
{
    c == ' ' || c == '\r' || c == '\n' || c == '\t'
}

impl Address {
    /// Two addresses hold the same bytes exactly when they are equal.
    pub proof fn lemma_view_injective(self, other: Address)
        ensures
            self@ == other@ <==> self == other,
    {
        if self@ == other@ {
            assert(self.bytes =~= other.bytes);
        }
    }

    /// The address of twenty zero bytes.
    pub fn zero() -> (r: Address)
        ensures
            r@ == Seq::new(20, |i: int| 0u8),
    {
        let r = Address { bytes: [0u8; 20] };
        proof {
            assert(r@ =~= Seq::new(20, |i: int| 0u8));
        }
        r
    }

    /// Whether the two addresses are the same.
    pub fn eq(&self, other: &Address) -> (r: bool)
        ensures
            r == (*self == *other),
    {
        let mut i: usize = 0;
        while i < 20
            invariant
                i <= 20,
                forall|j: int| 0 <= j < i ==> self.bytes[j] == other.bytes[j],
            decreases 20 - i,
        {
            if self.bytes[i] != other.bytes[i] {
                return false;
            }
            i += 1;
        }
        proof {
            assert(self.bytes =~= other.bytes);
        }
        true
    }

    /// Reads an address from its hexadecimal text.
    pub fn from_str(s: &str) -> (r: Option<Address>)
        ensures
            r is Some <==> address_text_valid(s@),
            r matches Some(a) ==> a@ == address_text_bytes(s@),
    {
        let n = s.unicode_len();
        let start: usize = if n >= 2 && s.get_char(0) == '0' && s.get_char(1) == 'x' {
            2
        } else {
            0
        };
        let ghost body = strip_0x(s@);
        let mut bytes: [u8; 20] = [0u8; 20];
        let mut count: usize = 0;
        let mut high: u8 = 0;
        let mut k: usize = start;
        while k < n
            invariant
                start <= k <= n,
                n == s@.len(),
                body == strip_0x(s@),
                body.len() == n - start,
                forall|j: int| 0 <= j < body.len() ==> body[j] == s@[start + j],
                all_hex_or_blank(body.subrange(0, k - start)),
                count == without_blanks(body.subrange(0, k - start)).len(),
                count <= k - start,
                forall|j: int|
                    0 <= j < count ==> hex_digit(#[trigger] without_blanks(body.subrange(0, k - start))[j]) is Some,
                forall|m: int|
                    0 <= m < 20 && 2 * m + 1 < count ==> #[trigger] bytes[m] == hex_pair_value(
                        without_blanks(body.subrange(0, k - start)),
                        m,
                    ),
                high < 16,
                (count % 2 == 1 && count < 40) ==> hex_digit(
                    without_blanks(body.subrange(0, k - start))[count - 1],
                ) == Some(high as nat),
            decreases n - k,
        {
            let c = s.get_char(k);
            let ghost before = body.subrange(0, k - start);
            let ghost after = body.subrange(0, k + 1 - start);
            let ghost seen = without_blanks(before);
            proof {
                assert(after.drop_last() =~= before);
                assert(after.last() == c);
            }
            if !is_blank(c) {
                match value_of_hex_char(c) {
                    None => {
                        proof {
                            assert(body[k - start] == c);
                        }
                        return None;
                    },
                    Some(v) => {
                        if count < 40 {
                            if count % 2 == 0 {
                                high = v;
                            } else {
                                bytes[count / 2] = high * 16 + v;
                            }
                        }
                        count += 1;
                        proof {
                            let now = without_blanks(after);
                            assert(now == seen.push(c));
                            assert forall|m: int| 0 <= m < 20 && 2 * m + 1 < count implies #[trigger] bytes[m]
                                == hex_pair_value(now, m) by {
                                if 2 * m + 1 < count - 1 {
                                    assert(now[2 * m] == seen[2 * m]);
                                    assert(now[2 * m + 1] == seen[2 * m + 1]);
                                } else {
                                    assert(now[2 * m] == seen[2 * m]);
                                    assert(now[2 * m + 1] == c);
                                }
                            }
                            assert forall|j: int| 0 <= j < count implies hex_digit(#[trigger] now[j]) is Some by {
                                if j < count - 1 {
                                    assert(now[j] == seen[j]);
                                }
                            }
                        }
                    },
                }
            }
            proof {
                assert forall|j: int| 0 <= j < after.len() implies is_hex_blank(#[trigger] after[j]) || hex_digit(
                    after[j],
                ) is Some by {
                    if j < before.len() {
                        assert(after[j] == before[j]);
                    }
                }
            }
            k += 1;
        }
        proof {
            assert(body.subrange(0, n - start) =~= body);
        }
        if count == 40 {
            let a = Address { bytes };
            proof {
                assert(a@ =~= address_text_bytes(s@));
            }
            Some(a)
        } else {
            None
        }
    }

    /// The address as `0x` and 40 lower-case hexadecimal digits.
    pub fn to_hex(&self) -> (r: String)
        ensures
            r@ == address_text(self@),
    {
        let mut s = String::new();
        push_char(&mut s, '0');
        push_char(&mut s, 'x');
        let mut i: usize = 0;
        while i < 20
            invariant
                i <= 20,
                s@.len() == 2 + 2 * i,
                forall|j: int| 0 <= j < s@.len() ==> s@[j] == address_text(self@)[j],
            decreases 20 - i,
        {
            let b = self.bytes[i];
            push_char(&mut s, hex_char_of_value(b / 16));
            push_char(&mut s, hex_char_of_value(b % 16));
            i += 1;
        }
        proof {
            assert(s@ =~= address_text(self@));
        }
        s
    }
}

/// A text without blanks keeps all its characters.
pub proof fn lemma_without_blanks_keeps(s: Seq<char>)
    requires
        forall|i: int| 0 <= i < s.len() ==> !is_hex_blank(#[trigger] s[i]),
    ensures
        without_blanks(s) == s,
    decreases s.len(),
{
    if s.len() > 0 {
        lemma_without_blanks_keeps(s.drop_last());
        assert(s.drop_last().push(s.last()) =~= s);
    }
}

/// Reading back what was written gives the address again: the text of 20
/// bytes is a valid address text, and it stands for those bytes.
pub proof fn lemma_address_text_round_trip(bytes: Seq<u8>)
    requires
        bytes.len() == 20,
    ensures
        address_text_valid(address_text(bytes)),
        address_text_bytes(address_text(bytes)) == bytes,
{
    let text = address_text(bytes);
    let digits = Seq::new(
        40,
        |i: int|
            if i % 2 == 0 {
                hex_char((bytes[i / 2] / 16) as nat)
            } else {
                hex_char((bytes[i / 2] % 16) as nat)
            },
    );
    assert(text[0] == '0' && text[1] == 'x');
    assert(strip_0x(text) =~= digits);
    assert forall|i: int| 0 <= i < digits.len() implies !is_hex_blank(#[trigger] digits[i]) && hex_digit(
        digits[i],
    ) is Some by {}
    lemma_without_blanks_keeps(digits);
    assert forall|m: int| 0 <= m < 20 implies #[trigger] hex_bytes(digits)[m] == bytes[m] by {
        let b = bytes[m];
        assert(digits[2 * m] == hex_char((b / 16) as nat));
        assert(digits[2 * m + 1] == hex_char((b % 16) as nat));
        assert(hex_digit(hex_char((b / 16) as nat)) == Some((b / 16) as nat));
        assert(hex_digit(hex_char((b % 16) as nat)) == Some((b % 16) as nat));
    }
    assert(hex_bytes(digits) =~= bytes);
}

} // verus!

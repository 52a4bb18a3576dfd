//! Text built from ASCII bytes, and decimal numbers.
use vstd::prelude::*;
use vstd::string::StringExecFns;
use vstd::utf8::{decode_utf8, encode_utf8, is_ascii_chars, valid_utf8};

use crate::bytes;

verus! {

/// The text whose characters have the given bytes as their numbers.
pub open spec fn chars(s: Seq<u8>) -> Seq<char> {
    s.map_values(|b: u8| b as char)
}

pub open spec fn is_ascii_bytes(s: Seq<u8>) -> bool {
    forall|i: int| 0 <= i < s.len() ==> #[trigger] s[i] < 128
}

/// The text in an optional string.
pub open spec fn optional(s: Option<String>) -> Option<Seq<char>> {
    match s {
        Some(t) => Some(t@),
        None => None,
    }
}

/// The decimal digit of a number below ten.
pub open spec fn digit(d: int) -> char {
    (48 + d) as char
}

/// A number in decimal, without leading zeros.
pub open spec fn decimal(n: nat) -> Seq<char>
    decreases n,
{
    if n < 10 {
        seq![digit(n as int)]
    } else {
        decimal(n / 10).push(digit((n % 10) as int))
    }
}

/// ASCII bytes are the UTF-8 encoding of the characters they number.
pub proof fn lemma_ascii(s: Seq<u8>)
    requires
        is_ascii_bytes(s),
    ensures
        valid_utf8(s),
        decode_utf8(s) == chars(s),
        encode_utf8(chars(s)) == s,
{
    let cs = chars(s);
    assert(is_ascii_chars(cs));
    vstd::utf8::is_ascii_chars_encode_utf8(cs);
    assert(encode_utf8(cs) =~= s);
    vstd::utf8::encode_utf8_valid_utf8(cs);
    vstd::utf8::encode_utf8_decode_utf8(cs);
}

/// Texts with the same UTF-8 encoding are the same.
pub proof fn lemma_utf8_injective(a: Seq<char>, b: Seq<char>)
    requires
        encode_utf8(a) == encode_utf8(b),
    ensures
        a == b,
{
    vstd::utf8::encode_utf8_decode_utf8(a);
    vstd::utf8::encode_utf8_decode_utf8(b);
}

pub fn ascii_string(s: &[u8]) -> (res: String)
    requires
        is_ascii_bytes(s@),
    ensures
        res@ == chars(s@),
        encode_utf8(res@) == s@,
{
    proof {
        lemma_ascii(s@);
    }
    match core::str::from_utf8(s) {
        Ok(text) => text.to_owned(),
        Err(_) => String::new(),
    }
}

fn digit_text(d: u64) -> (res: &'static str)
    requires
        d < 10,
    ensures
        res@ == seq![digit(d as int)],
{
    proof {
        reveal_strlit("0");
        reveal_strlit("1");
        reveal_strlit("2");
        reveal_strlit("3");
        reveal_strlit("4");
        reveal_strlit("5");
        reveal_strlit("6");
        reveal_strlit("7");
        reveal_strlit("8");
        reveal_strlit("9");
    }
    if d == 0 {
        "0"
    } else if d == 1 {
        "1"
    } else if d == 2 {
        "2"
    } else if d == 3 {
        "3"
    } else if d == 4 {
        "4"
    } else if d == 5 {
        "5"
    } else if d == 6 {
        "6"
    } else if d == 7 {
        "7"
    } else if d == 8 {
        "8"
    } else {
        "9"
    }
}

pub fn append_decimal(out: &mut String, n: u64)
    ensures
        final(out)@ == old(out)@ + decimal(n as nat),
    decreases n,
{
    if n >= 10 {
        append_decimal(out, n / 10);
    }
    out.append(digit_text(n % 10));
}

pub open spec fn is_decimal_digit(b: u8) -> bool {
    48 <= b <= 57
}

/// One or more decimal digits.
pub open spec fn is_number(s: Seq<u8>) -> bool {
    s.len() > 0 && forall|i: int| 0 <= i < s.len() ==> is_decimal_digit(#[trigger] s[i])
}

/// The number that decimal digits stand for.
pub open spec fn number(s: Seq<u8>) -> nat
    decreases s.len(),
{
    if s.len() == 0 {
        0
    } else {
        (10 * number(s.drop_last()) + (s.last() - 48)) as nat
    }
}

/// What decimal digits read as, if it is not above the limit.
pub open spec fn reading_to(s: Seq<u8>, limit: nat) -> Option<nat> {
    if is_number(s) && number(s) <= limit {
        Some(number(s))
    } else {
        None
    }
}

/// What decimal digits read as, if it fits in a `usize`.
pub open spec fn reading(s: Seq<u8>) -> Option<nat> {
    reading_to(s, usize::MAX as nat)
}

/// The bytes without the plus sign that may stand in front.
pub open spec fn unsigned(s: Seq<u8>) -> Seq<u8> {
    if s.len() > 0 && s[0] == 43 {
        s.skip(1)
    } else {
        s
    }
}

proof fn lemma_number_prefix(s: Seq<u8>, n: int)
    requires
        0 <= n <= s.len(),
        is_number(s),
    ensures
        number(s.take(n)) <= number(s),
    decreases s.len() - n,
{
    if n == s.len() {
        assert(s.take(n) =~= s);
    } else {
        lemma_number_prefix(s, n + 1);
        assert(s.take(n + 1).drop_last() =~= s.take(n));
        assert(is_decimal_digit(s[n]));
    }
}

/// A number is read back from its decimal digits.
pub proof fn law_decimal_reads_back(n: nat)
    ensures
        is_number(encode_utf8(decimal(n))),
        number(encode_utf8(decimal(n))) == n,
        is_ascii_chars(decimal(n)),
    decreases n,
{
    let d = digit((n % 10) as int);
    if n < 10 {
        assert(is_ascii_chars(decimal(n)));
        vstd::utf8::is_ascii_chars_encode_utf8(decimal(n));
        let s = encode_utf8(decimal(n));
        assert(s =~= seq![(48 + n) as u8]);
        assert(s.drop_last() =~= Seq::<u8>::empty());
        assert(number(Seq::<u8>::empty()) == 0);
        assert(number(s) == n);
    } else {
        law_decimal_reads_back(n / 10);
        assert(is_ascii_chars(decimal(n)));
        vstd::utf8::is_ascii_chars_encode_utf8(decimal(n));
        vstd::utf8::is_ascii_chars_encode_utf8(decimal(n / 10));
        let s = encode_utf8(decimal(n));
        let front = encode_utf8(decimal(n / 10));
        assert(s =~= front.push((48 + n % 10) as u8));
        assert(s.drop_last() =~= front);
        assert forall|i: int| 0 <= i < s.len() implies is_decimal_digit(#[trigger] s[i]) by {
            if i < front.len() {
                assert(s[i] == front[i]);
            }
        }
    }
}

/// Reads decimal digits.
pub fn read_number(s: &[u8]) -> (res: Option<usize>)
    ensures
        match res {
            Some(n) => reading(s@) == Some(n as nat),
            None => reading(s@) is None,
        },
{
    match read_u64(s) {
        Some(n) => if n <= usize::MAX as u64 {
            Some(n as usize)
        } else {
            None
        },
        None => None,
    }
}

/// Removes the plus sign that may stand in front.
pub fn without_plus(s: &[u8]) -> (res: &[u8])
    ensures
        res@ == unsigned(s@),
{
    if s.len() > 0 && s[0] == 43 {
        let rest = &s[1..s.len()];
        assert(rest@ =~= s@.skip(1));
        rest
    } else {
        s
    }
}

/// Whether two texts are the same.
pub fn equal(a: &str, b: &str) -> (res: bool)
    ensures
        res == (a@ == b@),
{
    let res = bytes::equal(a.as_bytes(), b.as_bytes());
    proof {
        if res {
            lemma_utf8_injective(a@, b@);
        }
    }
    res
}

/// Reads decimal digits.
pub fn read_u64(s: &[u8]) -> (res: Option<u64>)
    ensures
        match res {
            Some(n) => reading_to(s@, u64::MAX as nat) == Some(n as nat),
            None => reading_to(s@, u64::MAX as nat) is None,
        },
{
    if s.len() == 0 {
        return None;
    }
    let mut n: u64 = 0;
    let mut i: usize = 0;
    while i < s.len()
        invariant
            s@.len() > 0,
            i <= s.len(),
            forall|j: int| 0 <= j < i ==> is_decimal_digit(#[trigger] s@[j]),
            n == number(s@.take(i as int)),
        decreases s.len() - i,
    {
        let b = s[i];
        if b < 48 || b > 57 {
            assert(!is_decimal_digit(s@[i as int]));
            return None;
        }
        proof {
            assert(s@.take(i + 1).drop_last() =~= s@.take(i as int));
            assert(number(s@.take(i + 1)) == 10 * n + (b - 48));
            if is_number(s@) {
                lemma_number_prefix(s@, i + 1);
            }
        }
        match n.checked_mul(10) {
            Some(m) => match m.checked_add((b - 48) as u64) {
                Some(next) => {
                    n = next;
                },
                None => {
                    return None;
                },
            },
            None => {
                return None;
            },
        }
        i += 1;
    }
    assert(s@.take(s@.len() as int) =~= s@);
    Some(n)
}

/// A decimal number is written with the ten digits, and with no zero in front
/// of another digit.
pub proof fn law_decimal_is_shortest(n: nat)
    ensures
        decimal(n).len() > 0,
        decimal(n).len() > 1 ==> decimal(n)[0] != '0',
        forall|i: int|
            0 <= i < decimal(n).len() ==> '0' <= #[trigger] decimal(n)[i] && decimal(n)[i] <= '9',
        decimal(n)[0] == '0' <==> n == 0,
    decreases n,
{
    if n >= 10 {
        law_decimal_is_shortest(n / 10);
        let front = decimal(n / 10);
        assert forall|i: int| 0 <= i < decimal(n).len() implies '0' <= #[trigger] decimal(n)[i]
            && decimal(n)[i] <= '9' by {
            if i < front.len() {
                assert(decimal(n)[i] == front[i]);
            }
        }
    }
}

/// Each digit that follows makes ten times the number and adds itself.
pub proof fn law_number_grows(s: Seq<u8>, b: u8)
    requires
        48 <= b <= 57,
    ensures
        number(Seq::empty()) == 0,
        number(s.push(b)) == 10 * number(s) + (b - 48),
{
    assert(s.push(b).drop_last() =~= s);
}

/// Exactly one or more of the ten digits read as a number, as far as it is not
/// above the limit.
pub proof fn law_reading(s: Seq<u8>, limit: nat)
    ensures
        reading_to(s, limit) is Some <==> s.len() > 0 && (forall|i: int|
            0 <= i < s.len() ==> 48 <= #[trigger] s[i] <= 57) && number(s) <= limit,
        reading_to(s, limit) matches Some(n) ==> n == number(s),
        reading(s) == reading_to(s, usize::MAX as nat),
{
    if s.len() > 0 && forall|i: int| 0 <= i < s.len() ==> 48 <= #[trigger] s[i] <= 57 {
        assert forall|i: int| 0 <= i < s.len() implies is_decimal_digit(#[trigger] s[i]) by {}
    }
    if is_number(s) {
        assert forall|i: int| 0 <= i < s.len() implies 48 <= #[trigger] s[i] <= 57 by {
            assert(is_decimal_digit(s[i]));
        }
    }
}

/// One plus sign in front is dropped, and nothing else.
pub proof fn law_unsigned(s: Seq<u8>)
    ensures
        unsigned(seq![43u8] + s) == s,
        s.len() == 0 || s[0] != 43 ==> unsigned(s) == s,
{
    assert((seq![43u8] + s).skip(1) =~= s);
}

/// Each byte is the number of its character.
pub proof fn law_chars(s: Seq<u8>)
    ensures
        chars(s).len() == s.len(),
        forall|i: int| 0 <= i < s.len() ==> #[trigger] chars(s)[i] == s[i] as char,
{
}

/// A text that is there is seen as it is.
pub proof fn law_optional(s: String)
    ensures
        optional(Some(s)) == Some(s@),
        optional(None) is None,
{
}

} // verus!

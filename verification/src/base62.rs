//! Numbers written in base 62 with the digits `0-9A-Za-z`.
use vstd::prelude::*;
use vstd::utf8::encode_utf8;

use crate::text;

verus! {

/// The byte that stands for a digit.
pub open spec fn digit_byte(d: int) -> u8 {
    if d < 10 {
        (48 + d) as u8
    } else if d < 36 {
        (65 + d - 10) as u8
    } else {
        (97 + d - 36) as u8
    }
}

/// The digit that a byte stands for.
pub open spec fn digit_of(b: u8) -> Option<int> {
    if 48 <= b <= 57 {
        Some(b - 48)
    } else if 65 <= b <= 90 {
        Some(b - 65 + 10)
    } else if 97 <= b <= 122 {
        Some(b - 97 + 36)
    } else {
        None
    }
}

/// A number in base 62, without leading zeros.
pub open spec fn encoding(n: nat) -> Seq<u8>
    decreases n,
{
    if n < 62 {
        seq![digit_byte(n as int)]
    } else {
        encoding(n / 62).push(digit_byte((n % 62) as int))
    }
}

pub open spec fn all_digits(s: Seq<u8>) -> bool {
    forall|i: int| 0 <= i < s.len() ==> digit_of(#[trigger] s[i]) is Some
}

/// The number that a string of digits stands for, leading zeros allowed.
pub open spec fn value(s: Seq<u8>) -> nat
    decreases s.len(),
{
    if s.len() == 0 {
        0
    } else {
        (62 * value(s.drop_last()) + digit_of(s.last()).unwrap()) as nat
    }
}

/// What a string decodes to: the number it stands for, if it is one or more
/// digits and the number fits in 64 bits.
pub open spec fn decoding(s: Seq<u8>) -> Option<u64> {
    if s.len() > 0 && all_digits(s) && value(s) <= u64::MAX {
        Some(value(s) as u64)
    } else {
        None
    }
}

/// A string that can be a code: at most 11 digits, and no zero in front.
pub open spec fn canonical(s: Seq<u8>) -> bool {
    &&& s.len() <= 11
    &&& s.len() > 1 ==> s[0] != 48
    &&& decoding(s) is Some
}

proof fn lemma_digit(d: int)
    requires
        0 <= d < 62,
    ensures
        digit_of(digit_byte(d)) == Some(d),
        digit_byte(d) < 128,
        digit_byte(d) == 48 <==> d == 0,
{
}

proof fn lemma_digit_of(b: u8)
    requires
        digit_of(b) is Some,
    ensures
        0 <= digit_of(b).unwrap() < 62,
        digit_byte(digit_of(b).unwrap()) == b,
{
}

/// The digits of a number stand for it, and the first is zero only for zero.
proof fn lemma_encoding(n: nat)
    ensures
        all_digits(encoding(n)),
        text::is_ascii_bytes(encoding(n)),
        value(encoding(n)) == n,
        encoding(n).len() > 0,
        encoding(n)[0] == 48 <==> n == 0,
    decreases n,
{
    if n < 62 {
        lemma_digit(n as int);
        assert(encoding(n).drop_last() =~= Seq::<u8>::empty());
        assert(value(Seq::<u8>::empty()) == 0);
        assert(value(encoding(n)) == n);
    } else {
        lemma_encoding(n / 62);
        lemma_digit((n % 62) as int);
        let front = encoding(n / 62);
        let last = digit_byte((n % 62) as int);
        assert(encoding(n) == front.push(last));
        assert(encoding(n).drop_last() =~= front);
        assert(encoding(n).last() == last);
        assert(value(encoding(n)) == 62 * (n / 62) + n % 62);
    }
}

pub open spec fn power62(k: nat) -> nat
    decreases k,
{
    if k == 0 {
        1
    } else {
        62 * power62((k - 1) as nat)
    }
}

/// A number of at least `k + 1` digits is at least `62^k`.
proof fn lemma_encoding_size(n: nat)
    ensures
        n > 0 ==> power62((encoding(n).len() - 1) as nat) <= n,
    decreases n,
{
    lemma_encoding(n);
    if n < 62 {
        assert(power62(0) == 1);
    } else {
        lemma_encoding_size(n / 62);
        lemma_encoding(n / 62);
        let k = (encoding(n / 62).len() - 1) as nat;
        assert(encoding(n).len() - 1 == k + 1);
        assert(power62((k + 1) as nat) == 62 * power62(k));
    }
}

proof fn lemma_power62_grows(j: nat, k: nat)
    requires
        j <= k,
    ensures
        power62(j) <= power62(k),
    decreases k,
{
    if j < k {
        lemma_power62_grows(j, (k - 1) as nat);
    }
}

/// Codes of 64-bit numbers have at most 11 digits.
pub proof fn lemma_code_length(n: u64)
    ensures
        0 < encoding(n as nat).len() <= 11,
{
    lemma_encoding(n as nat);
    if encoding(n as nat).len() > 11 {
        lemma_encoding_size(n as nat);
        lemma_power62_grows(11, (encoding(n as nat).len() - 1) as nat);
        reveal_with_fuel(power62, 12);
        assert(power62(11) > u64::MAX);
    }
}

/// A value grows with every digit.
proof fn lemma_value_push(s: Seq<u8>, b: u8)
    ensures
        value(s.push(b)) == (62 * value(s) + digit_of(b).unwrap()) as nat,
        all_digits(s.push(b)) <==> all_digits(s) && digit_of(b) is Some,
{
    assert(s.push(b).drop_last() =~= s);
    assert(s.push(b).last() == b);
    if all_digits(s.push(b)) {
        assert forall|i: int| 0 <= i < s.len() implies digit_of(#[trigger] s[i]) is Some by {
            assert(s.push(b)[i] == s[i]);
        }
        assert(s.push(b)[s.len() as int] == b);
    }
}

/// The value of a prefix is at most that of the whole.
proof fn lemma_value_prefix(s: Seq<u8>, n: int)
    requires
        0 <= n <= s.len(),
        all_digits(s),
    ensures
        value(s.take(n)) <= value(s),
    decreases s.len() - n,
{
    if n == s.len() {
        assert(s.take(n) =~= s);
    } else {
        lemma_value_prefix(s, n + 1);
        assert(s.take(n + 1) =~= s.take(n).push(s[n]));
        lemma_digit_of(s[n]);
        lemma_value_push(s.take(n), s[n]);
    }
}

/// A string of digits without a leading zero is how its value is written.
proof fn lemma_canonical(s: Seq<u8>)
    requires
        s.len() > 0,
        all_digits(s),
        s.len() > 1 ==> s[0] != 48,
    ensures
        encoding(value(s)) == s,
    decreases s.len(),
{
    let front = s.drop_last();
    let last = s.last();
    let d = digit_of(last).unwrap();
    assert(digit_of(s[s.len() - 1]) is Some);
    lemma_digit_of(last);
    if s.len() == 1 {
        assert(front =~= Seq::<u8>::empty());
        assert(value(front) == 0);
        assert(value(s) == d);
        assert(encoding(value(s)) =~= s);
    } else {
        assert(front[0] == s[0]);
        assert forall|i: int| 0 <= i < front.len() implies digit_of(#[trigger] front[i]) is Some by {
            assert(front[i] == s[i]);
        }
        lemma_canonical(front);
        let v = value(front);
        lemma_encoding(v);
        assert(v != 0);
        assert(value(s) == 62 * v + d);
        assert((62 * v + d) / 62 == v && (62 * v + d) % 62 == d) by (nonlinear_arith)
            requires
                0 <= d < 62,
                v >= 0,
        ;
        assert(encoding(value(s)) =~= front.push(last));
        assert(s =~= front.push(last));
    }
}

/// Every 64-bit number is read back from its code, and its code is canonical.
pub proof fn law_roundtrip(n: u64)
    ensures
        decoding(encoding(n as nat)) == Some(n),
        canonical(encoding(n as nat)),
{
    lemma_encoding(n as nat);
    lemma_code_length(n);
    if encoding(n as nat).len() > 1 && encoding(n as nat)[0] == 48 {
        assert(encoding(0).len() == 1);
    }
}

/// Every canonical code is the code of the number it decodes to.
pub proof fn law_canonical(s: Seq<u8>)
    requires
        canonical(s),
    ensures
        encoding(decoding(s).unwrap() as nat) == s,
{
    lemma_canonical(s);
}

/// Different numbers have different codes.
pub proof fn law_codes_differ(m: u64, n: u64)
    requires
        m != n,
    ensures
        encoding(m as nat) != encoding(n as nat),
{
    law_roundtrip(m);
    law_roundtrip(n);
}

fn push_digits(out: &mut Vec<u8>, n: u64)
    ensures
        final(out)@ == old(out)@ + encoding(n as nat),
    decreases n,
{
    if n >= 62 {
        push_digits(out, n / 62);
    }
    let d: u8 = (n % 62) as u8;
    let b: u8 = if d < 10 {
        48 + d
    } else if d < 36 {
        55 + d
    } else {
        61 + d
    };
    out.push(b);
    assert(out@ =~= old(out)@ + encoding(n as nat));
}

/// The code of a number.
pub fn base62_encode(n: u64) -> (res: String)
    ensures
        encode_utf8(res@) == encoding(n as nat),
        res@ == text::chars(encoding(n as nat)),
{
    let mut digits: Vec<u8> = Vec::new();
    push_digits(&mut digits, n);
    proof {
        lemma_encoding(n as nat);
        assert(digits@ =~= encoding(n as nat));
    }
    text::ascii_string(digits.as_slice())
}

/// The number that a string of bytes decodes to.
pub fn decode_bytes(s: &[u8]) -> (res: Option<u64>)
    ensures
        res == decoding(s@),
{
    if s.len() == 0 {
        return None;
    }
    let mut n: u64 = 0;
    let mut i: usize = 0;
    assert(s@.take(0) =~= Seq::<u8>::empty());
    while i < s.len()
        invariant
            s@.len() > 0,
            i <= s.len(),
            all_digits(s@.take(i as int)),
            n == value(s@.take(i as int)),
        decreases s.len() - i,
    {
        let b = s[i];
        let d: u8 = if 48 <= b && b <= 57 {
            b - 48
        } else if 65 <= b && b <= 90 {
            b - 65 + 10
        } else if 97 <= b && b <= 122 {
            b - 97 + 36
        } else {
            assert(digit_of(s@[i as int]) is None);
            return None;
        };
        proof {
            assert(s@.take(i + 1) =~= s@.take(i as int).push(b));
            lemma_value_push(s@.take(i as int), b);
            if all_digits(s@) {
                lemma_value_prefix(s@, i + 1);
            }
        }
        match n.checked_mul(62) {
            Some(m) => match m.checked_add(d as u64) {
                Some(next) => {
                    n = next;
                },
                None => {
                    return None;
                },
            },
            None => {
                return None;
            },
        }
        i += 1;
    }
    assert(s@.take(s@.len() as int) =~= s@);
    Some(n)
}

/// The number that a string stands for as a code.
pub fn read_code(s: &[u8]) -> (res: Option<u64>)
    ensures
        match res {
            Some(id) => canonical(s@) && decoding(s@) == Some(id),
            None => !canonical(s@),
        },
{
    if s.len() > 11 || (s.len() > 1 && s[0] == 48) {
        return None;
    }
    decode_bytes(s)
}

/// The number that a text decodes to.
pub fn base62_decode(s: &str) -> (res: Option<u64>)
    ensures
        res == decoding(encode_utf8(s@)),
{
    decode_bytes(s.as_bytes())
}

/// The digits are `0` to `9`, then `A` to `Z`, then `a` to `z`, and a code holds
/// those of its number, the highest first.
pub proof fn law_alphabet(n: nat)
    ensures
        ({
            let alphabet = "0123456789ABCDEFGHIJKLMNOPQRSTUVWXYZabcdefghijklmnopqrstuvwxyz"@;
            &&& n < 62 ==> encoding(n) == seq![alphabet[n as int] as u8]
            &&& n >= 62 ==> encoding(n) == encoding(n / 62).push(
                alphabet[(n % 62) as int] as u8,
            )
        }),
{
    reveal_strlit("0123456789ABCDEFGHIJKLMNOPQRSTUVWXYZabcdefghijklmnopqrstuvwxyz");
}

/// What decodes to a number is its code, with or without zeros in front, and
/// every such string does.
pub proof fn law_decoding(s: Seq<u8>, n: u64)
    ensures
        decoding(s) == Some(n) <==> {
            let code = encoding(n as nat);
            let zeros = s.len() - code.len();
            &&& 0 <= zeros
            &&& s.skip(zeros) == code
            &&& forall|i: int| 0 <= i < zeros ==> #[trigger] s[i] == 48
        },
    decreases s.len(),
{
    law_roundtrip(n);
    lemma_encoding(n as nat);
    let code = encoding(n as nat);
    let zeros = s.len() - code.len();
    if s.len() > 1 && s[0] == 48 {
        let t = s.drop_first();
        law_decoding(t, n);
        lemma_leading_zero(t);
        assert(s =~= seq![48u8] + t);
        if zeros > 0 {
            assert(s.skip(zeros) =~= t.skip(zeros - 1));
            if forall|i: int| 0 <= i < zeros - 1 ==> #[trigger] t[i] == 48 {
                assert forall|i: int| 0 <= i < zeros implies #[trigger] s[i] == 48 by {
                    if i > 0 {
                        assert(s[i] == t[i - 1]);
                    }
                }
            }
            if forall|i: int| 0 <= i < zeros ==> #[trigger] s[i] == 48 {
                assert forall|i: int| 0 <= i < zeros - 1 implies #[trigger] t[i] == 48 by {
                    assert(t[i] == s[i + 1]);
                }
            }
        } else if zeros == 0 {
            assert(s.skip(0) =~= s);
            if s == code {
                assert(n == 0);
                assert(encoding(0).len() == 1);
            }
        }
    } else if s.len() > 0 {
        if decoding(s) == Some(n) {
            lemma_digits_are_encoding(s);
            assert(s.skip(0) =~= s);
        }
        if 0 <= zeros && s.skip(zeros) == code && forall|i: int|
            0 <= i < zeros ==> #[trigger] s[i] == 48 {
            if zeros > 0 {
                assert(s[0] == 48);
            }
            assert(s.skip(0) =~= s);
        }
    }
}

/// A zero in front does not change what digits stand for.
proof fn lemma_leading_zero(t: Seq<u8>)
    ensures
        value(seq![48u8] + t) == value(t),
        all_digits(seq![48u8] + t) <==> all_digits(t),
    decreases t.len(),
{
    let s = seq![48u8] + t;
    if t.len() == 0 {
        assert(s.drop_last() =~= Seq::<u8>::empty());
        assert(value(Seq::<u8>::empty()) == 0);
    } else {
        lemma_leading_zero(t.drop_last());
        assert(s.drop_last() =~= seq![48u8] + t.drop_last());
    }
    if all_digits(s) {
        assert forall|i: int| 0 <= i < t.len() implies digit_of(#[trigger] t[i]) is Some by {
            assert(t[i] == s[i + 1]);
        }
    }
    if all_digits(t) {
        assert forall|i: int| 0 <= i < s.len() implies digit_of(#[trigger] s[i]) is Some by {
            if i > 0 {
                assert(s[i] == t[i - 1]);
            }
        }
    }
}

/// Digits without a zero in front are those of the number they stand for.
proof fn lemma_digits_are_encoding(s: Seq<u8>)
    requires
        s.len() > 0,
        all_digits(s),
        s.len() > 1 ==> s[0] != 48,
    ensures
        encoding(value(s)) == s,
    decreases s.len(),
{
    let front = s.drop_last();
    let last = s.last();
    assert(digit_of(s[s.len() - 1]) is Some);
    lemma_digit_of(last);
    let d = digit_of(last).unwrap();
    if s.len() == 1 {
        assert(front =~= Seq::<u8>::empty());
        assert(value(front) == 0);
        assert(s =~= seq![last]);
    } else {
        assert forall|i: int| 0 <= i < front.len() implies digit_of(#[trigger] front[i]) is Some by {
            assert(front[i] == s[i]);
        }
        lemma_digits_are_encoding(front);
        let m = value(front);
        if m == 0 {
            lemma_encoding(0);
            assert(front[0] == 48);
        }
        assert(value(s) == 62 * m + d);
        assert((62 * m + d) / 62 == m && (62 * m + d) % 62 == d);
        assert(s =~= front.push(last));
    }
}

/// What can be a code is exactly what is the code of a number of 64 bits.
pub proof fn law_canonical_codes(s: Seq<u8>)
    ensures
        canonical(s) <==> exists|n: u64| s == #[trigger] encoding(n as nat),
{
    if canonical(s) {
        law_canonical(s);
    }
    if exists|n: u64| s == #[trigger] encoding(n as nat) {
        let n = choose|n: u64| s == #[trigger] encoding(n as nat);
        law_roundtrip(n);
    }
}

} // verus!

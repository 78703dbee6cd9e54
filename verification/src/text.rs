//! Small facts and helpers about strings and bytes.
use vstd::prelude::*;
use vstd::utf8::*;

verus! {

broadcast use vstd::utf8::encode_utf8_decode_utf8;

/// Byte-wise equality of two slices.
pub fn bytes_eq(a: &[u8], b: &[u8]) -> (r: bool)
    ensures
        r == (a@ == b@),
{
    if a.len() != b.len() {
        return false;
    }
    let mut i: usize = 0;
    while i < a.len()
        invariant
            a@.len() == b@.len(),
            i <= a@.len(),
            forall|j: int| 0 <= j < i ==> a@[j] == b@[j],
        decreases a@.len() - i,
    {
        if a[i] != b[i] {
            return false;
        }
        i = i + 1;
    }
    assert(a@ =~= b@);
    true
}

/// Two strings hold the same characters exactly when their UTF-8 encodings are equal.
pub proof fn lemma_encode_utf8_injective(s: Seq<char>, t: Seq<char>)
    ensures
        (encode_utf8(s) == encode_utf8(t)) == (s == t),
{
    if encode_utf8(s) == encode_utf8(t) {
        assert(decode_utf8(encode_utf8(s)) == s);
        assert(decode_utf8(encode_utf8(t)) == t);
    }
}

/// Equality of two string slices, character by character.
pub fn str_eq(a: &str, b: &str) -> (r: bool)
    ensures
        r == (a@ == b@),
{
    let r = bytes_eq(a.as_bytes(), b.as_bytes());
    proof {
        lemma_encode_utf8_injective(a@, b@);
    }
    r
}

/// The number that a non-empty run of ASCII digits spells in decimal.
pub open spec fn digits_value(d: Seq<u8>) -> int
    decreases d.len(),
{
    if d.len() == 0 {
        0
    } else {
        digits_value(d.drop_last()) * 10 + (d.last() - 48)
    }
}

/// Every byte is an ASCII digit.
pub open spec fn all_digits(d: Seq<u8>) -> bool {
    forall|i: int| 0 <= i < d.len() ==> 48 <= #[trigger] d[i] <= 57
}

/// What `FromStr` of an unsigned integer type whose largest value is `max` gives
/// for the bytes `b`: an optional `+`, then at least one decimal digit, and no
/// more than `max`.
pub open spec fn parse_uint(b: Seq<u8>, max: int) -> Option<int> {
    let d = if b.len() > 0 && b[0] == 43 {
        b.drop_first()
    } else {
        b
    };
    if d.len() > 0 && all_digits(d) && digits_value(d) <= max {
        Some(digits_value(d))
    } else {
        None
    }
}

proof fn lemma_digits_value_prefix(d: Seq<u8>, i: int)
    requires
        all_digits(d),
        0 <= i <= d.len(),
    ensures
        digits_value(d) >= digits_value(d.take(i)),
        digits_value(d.take(i)) >= 0,
    decreases d.len(),
{
    if d.len() == 0 {
        assert(d.take(i) =~= d);
    } else if i == d.len() {
        assert(d.take(i) =~= d);
        lemma_digits_value_prefix(d.drop_last(), 0);
    } else {
        lemma_digits_value_prefix(d.drop_last(), i);
        assert(d.drop_last().take(i) =~= d.take(i));
        assert(all_digits(d.drop_last()));
    }
}

/// Read an unsigned decimal number no larger than `max`, as `str::parse` does for
/// an unsigned integer type of that range.
pub fn parse_uint_str(s: &str, max: u32) -> (r: Option<u32>)
    ensures
        r == (match parse_uint(encode_utf8(s@), max as int) {
            Some(v) => Some(v as u32),
            None => None,
        }),
        parse_uint(encode_utf8(s@), max as int) matches Some(v) ==> 0 <= v <= max,
{
    let b = s.as_bytes();
    let ghost bs = b@;
    assert(bs == encode_utf8(s@));
    let start: usize = if b.len() > 0 && b[0] == 43 {
        1
    } else {
        0
    };
    let ghost d = bs.skip(start as int);
    proof {
        if start == 1 {
            assert(d =~= bs.drop_first());
        } else {
            assert(d =~= bs);
        }
    }
    if b.len() <= start {
        return None;
    }
    let mut acc: u64 = 0;
    let mut over = false;
    let mut i: usize = start;
    while i < b.len()
        invariant
            start <= i <= b@.len(),
            b@ == bs,
            bs == encode_utf8(s@),
            d == bs.skip(start as int),
            d == (if bs.len() > 0 && bs[0] == 43 {
                bs.drop_first()
            } else {
                bs
            }),
            all_digits(d.take(i - start)),
            !over ==> acc == digits_value(d.take(i - start)) && acc <= max,
            over ==> digits_value(d.take(i - start)) > max,
        decreases b@.len() - i,
    {
        let c = b[i];
        if c < 48 || c > 57 {
            proof {
                assert(d[i - start] == c);
                assert(!all_digits(d));
                assert(parse_uint(encode_utf8(s@), max as int) is None);
            }
            return None;
        }
        proof {
            assert(d.take(i + 1 - start).drop_last() =~= d.take(i - start));
            assert(d.take(i + 1 - start).last() == c);
            assert(all_digits(d.take(i + 1 - start)));
        }
        if !over {
            let next = acc * 10 + (c - 48) as u64;
            if next > max as u64 {
                over = true;
            } else {
                acc = next;
            }
        } else {
            proof {
                lemma_digits_value_prefix(d.take(i + 1 - start), i - start);
                assert(d.take(i + 1 - start).take(i - start) =~= d.take(i - start));
            }
        }
        i = i + 1;
    }
    assert(d.take(i - start) =~= d);
    if over {
        None
    } else {
        Some(acc as u32)
    }
}

/// Calls `String::push`: `c` is added at the end.
#[verifier::external_body]
pub(crate) fn push_char(s: &mut String, c: char)
    ensures
        final(s)@ == old(s)@.push(c),
{
    s.push(c);
}

/// The decimal digit for `d < 10`.
pub open spec fn digit_char(d: int) -> char {
    (48 + d) as char
}

/// The decimal representation of `n`, without leading zeros, as `Display` writes it.
pub open spec fn decimal(n: nat) -> Seq<char>
    decreases n,
{
    if n < 10 {
        seq![digit_char(n as int)]
    } else {
        decimal(n / 10).push(digit_char((n % 10) as int))
    }
}

/// Append the decimal representation of `n` to `s`.
pub fn push_decimal(s: &mut String, n: usize)
    ensures
        final(s)@ == old(s)@ + decimal(n as nat),
    decreases n,
{
    if n < 10 {
        push_char(s, char_of_digit(n));
        assert(old(s)@.push(digit_char(n as int)) =~= old(s)@ + decimal(n as nat));
    } else {
        push_decimal(s, n / 10);
        push_char(s, char_of_digit(n % 10));
        assert(old(s)@ + decimal((n / 10) as nat) + seq![digit_char((n % 10) as int)] =~= old(s)@
            + decimal(n as nat));
    }
}

fn char_of_digit(d: usize) -> (c: char)
    requires
        d < 10,
    ensures
        c == digit_char(d as int),
{
    if d == 0 {
        '0'
    } else if d == 1 {
        '1'
    } else if d == 2 {
        '2'
    } else if d == 3 {
        '3'
    } else if d == 4 {
        '4'
    } else if d == 5 {
        '5'
    } else if d == 6 {
        '6'
    } else if d == 7 {
        '7'
    } else if d == 8 {
        '8'
    } else {
        '9'
    }
}

} // verus!

//! Text encodings of stanza arguments: unpadded standard base64 for byte
//! strings and decimal for the cost exponent.
use vstd::prelude::*;

verus! {

/// The character of the standard base64 alphabet for a six-bit value.
pub open spec fn b64_symbol(v: int) -> char {
    if v < 26 {
        ((v + 65) as u8) as char
    } else if v < 52 {
        ((v - 26 + 97) as u8) as char
    } else if v < 62 {
        ((v - 52 + 48) as u8) as char
    } else if v == 62 {
        '+'
    } else {
        '/'
    }
}

/// Unpadded standard base64 (RFC 4648, section 4, without trailing `=`):
/// every three bytes become four symbols, and a final one or two bytes
/// become two or three symbols whose unused low bits are zero.
pub open spec fn b64_encode(b: Seq<u8>) -> Seq<char>
    decreases b.len(),
{
    if b.len() == 0 {
        seq![]
    } else if b.len() == 1 {
        seq![b64_symbol((b[0] as int) / 4), b64_symbol(((b[0] as int) % 4) * 16)]
    } else if b.len() == 2 {
        seq![
            b64_symbol((b[0] as int) / 4),
            b64_symbol(((b[0] as int) % 4) * 16 + (b[1] as int) / 16),
            b64_symbol(((b[1] as int) % 16) * 4),
        ]
    } else {
        seq![
            b64_symbol((b[0] as int) / 4),
            b64_symbol(((b[0] as int) % 4) * 16 + (b[1] as int) / 16),
            b64_symbol(((b[1] as int) % 16) * 4 + (b[2] as int) / 64),
            b64_symbol((b[2] as int) % 64),
        ] + b64_encode(b.subrange(3, b.len() as int))
    }
}

/// The character for a decimal digit.
pub open spec fn digit_char(d: int) -> char {
    ((d + 48) as u8) as char
}

pub open spec fn is_digit(c: char) -> bool {
    '0' <= c && c <= '9'
}

pub open spec fn all_digits(s: Seq<char>) -> bool {
    forall|i: int| 0 <= i < s.len() ==> is_digit(#[trigger] s[i])
}

/// The number that a string of decimal digits denotes.
pub open spec fn decimal_value(s: Seq<char>) -> nat
    decreases s.len(),
{
    if s.len() == 0 {
        0
    } else {
        decimal_value(s.drop_last()) * 10 + ((s.last() as int - 48) as nat)
    }
}

/// The shortest decimal notation of `n`, without sign or leading zeros.
pub open spec fn decimal(n: nat) -> Seq<char>
    decreases n,
{
    if n < 10 {
        seq![digit_char(n as int)]
    } else {
        decimal(n / 10).push(digit_char((n % 10) as int))
    }
}

/// The digits of a number's notation: an optional leading `+` is no digit.
pub open spec fn unsigned_digits(s: Seq<char>) -> Seq<char> {
    if s.len() > 0 && s[0] == '+' {
        s.drop_first()
    } else {
        s
    }
}

/// A base-10 byte value: an optional `+` followed by one or more digits,
/// denoting at most 255.
pub open spec fn decimal_u8(s: Seq<char>) -> Option<u8> {
    let d = unsigned_digits(s);
    if d.len() > 0 && all_digits(d) && decimal_value(d) <= 255 {
        Some(decimal_value(d) as u8)
    } else {
        None
    }
}

/// Relies on `base64::encode_config` with `STANDARD_NO_PAD`: the unpadded
/// standard encoding of the bytes.
#[verifier::external_body]
pub(crate) fn encode_b64(b: &[u8]) -> (r: String)
    ensures
        r@ == b64_encode(b@),
{
    base64::encode_config(b, base64::STANDARD_NO_PAD)
}

/// Relies on `base64::decode_config` with `STANDARD_NO_PAD`: the encoding of
/// any bytes decodes to those bytes, and an input without `=` decodes only
/// if it is the encoding of what it decodes to (stray symbols, an impossible
/// length and nonzero unused bits are rejected).
#[verifier::external_body]
pub(crate) fn decode_b64(s: &str) -> (r: Option<Vec<u8>>)
    ensures
        forall|b: Seq<u8>| b64_encode(b) == s@ ==> (r is Some && r->Some_0@ == b),
        r is Some && !s@.contains('=') ==> b64_encode(r->Some_0@) == s@,
{
    base64::decode_config(s, base64::STANDARD_NO_PAD).ok()
}

/// Relies on `ToString` for `u8` (its `Display`): the shortest decimal
/// notation.
#[verifier::external_body]
pub(crate) fn decimal_string(n: u8) -> (r: String)
    ensures
        r@ == decimal(n as nat),
{
    n.to_string()
}

/// Reads a base-10 byte value, as `u8::from_str_radix(s, 10)` does.
pub fn parse_u8(s: &str) -> (r: Option<u8>)
    ensures
        r == decimal_u8(s@),
{
    let n = s.unicode_len();
    let mut start: usize = 0;
    if n > 0 && s.get_char(0) == '+' {
        start = 1;
    }
    if start >= n {
        return None;
    }
    let ghost d = unsigned_digits(s@);
    assert(d == s@.subrange(start as int, n as int));
    let mut acc: u32 = 0;
    let mut i: usize = start;
    while i < n
        invariant
            start <= i <= n,
            n == s@.len(),
            d == unsigned_digits(s@),
            d == s@.subrange(start as int, n as int),
            all_digits(d.subrange(0, i - start)),
            acc as nat == if decimal_value(d.subrange(0, i - start)) < 256 {
                decimal_value(d.subrange(0, i - start))
            } else {
                256
            },
        decreases n - i,
    {
        let c = s.get_char(i);
        if !('0' <= c && c <= '9') {
            assert(d[i - start] == c);
            assert(!is_digit(d[i - start]));
            assert(!all_digits(d));
            return None;
        }
        let ghost prev = d.subrange(0, i - start);
        let ghost next = d.subrange(0, i + 1 - start);
        assert(next.drop_last() == prev);
        assert(next.last() == c);
        let v = (c as u32) - 48;
        if acc >= 256 {
            acc = 256;
        } else {
            acc = acc * 10 + v;
            if acc > 256 {
                acc = 256;
            }
        }
        assert(all_digits(next)) by {
            assert forall|j: int| 0 <= j < next.len() implies is_digit(#[trigger] next[j]) by {
                if j < prev.len() {
                    assert(next[j] == prev[j]);
                }
            }
        }
        i = i + 1;
    }
    assert(d.subrange(0, n - start) == d);
    if acc <= 255 {
        Some(acc as u8)
    } else {
        None
    }
}

proof fn lemma_decimal_parts(n: nat)
    ensures
        decimal(n).len() > 0,
        all_digits(decimal(n)),
        decimal_value(decimal(n)) == n,
    decreases n,
{
    let d = (n % 10) as int;
    assert(digit_char(d) as int == d + 48);
    if n < 10 {
        let s = decimal(n);
        assert(s.drop_last() =~= seq![]);
        assert(decimal_value(seq![]) == 0);
        assert(decimal_value(s) == decimal_value(s.drop_last()) * 10 + ((s.last() as int - 48) as nat));
    } else {
        lemma_decimal_parts(n / 10);
        let p = decimal(n / 10);
        let s = p.push(digit_char(d));
        assert(s.drop_last() == p);
        assert(n == (n / 10) * 10 + d);
        assert(s.last() == digit_char(d));
        assert(decimal_value(s) == decimal_value(s.drop_last()) * 10 + ((s.last() as int - 48) as nat));
        assert forall|i: int| 0 <= i < s.len() implies is_digit(#[trigger] s[i]) by {
            if i < p.len() {
                assert(s[i] == p[i]);
            }
        }
    }
}

/// Reading a byte value's decimal notation gives the value back.
pub proof fn lemma_decimal_round_trip(n: u8)
    ensures
        decimal_u8(decimal(n as nat)) == Some(n),
{
    lemma_decimal_parts(n as nat);
    let s = decimal(n as nat);
    assert(is_digit(s[0]));
    assert(unsigned_digits(s) == s);
}

proof fn lemma_symbol_injective(x: int, y: int)
    requires
        0 <= x < 64,
        0 <= y < 64,
        b64_symbol(x) == b64_symbol(y),
    ensures
        x == y,
{
}

proof fn lemma_encode_len(b: Seq<u8>)
    ensures
        b.len() >= 3 ==> b64_encode(b).len() >= 4,
        b.len() < 3 ==> b64_encode(b).len() == if b.len() == 0 { 0 } else { b.len() + 1 },
    decreases b.len(),
{
    if b.len() >= 3 {
        lemma_encode_len(b.subrange(3, b.len() as int));
    }
}

proof fn lemma_encode_head(b: Seq<u8>)
    requires
        b.len() >= 3,
    ensures
        b64_encode(b)[0] == b64_symbol((b[0] as int) / 4),
        b64_encode(b)[1] == b64_symbol(((b[0] as int) % 4) * 16 + (b[1] as int) / 16),
        b64_encode(b)[2] == b64_symbol(((b[1] as int) % 16) * 4 + (b[2] as int) / 64),
        b64_encode(b)[3] == b64_symbol((b[2] as int) % 64),
        b64_encode(b).subrange(4, b64_encode(b).len() as int) == b64_encode(
            b.subrange(3, b.len() as int),
        ),
{
    let head = seq![
        b64_symbol((b[0] as int) / 4),
        b64_symbol(((b[0] as int) % 4) * 16 + (b[1] as int) / 16),
        b64_symbol(((b[1] as int) % 16) * 4 + (b[2] as int) / 64),
        b64_symbol((b[2] as int) % 64),
    ];
    let e = b64_encode(b);
    assert(e == head + b64_encode(b.subrange(3, b.len() as int)));
    assert(e.subrange(4, e.len() as int) =~= b64_encode(b.subrange(3, b.len() as int)));
}

/// Different byte strings have different encodings.
pub proof fn lemma_b64_encode_injective(a: Seq<u8>, b: Seq<u8>)
    requires
        b64_encode(a) == b64_encode(b),
    ensures
        a == b,
    decreases a.len(),
{
    lemma_encode_len(a);
    lemma_encode_len(b);
    let e = b64_encode(a);
    if a.len() == 0 {
        assert(b.len() == 0);
    } else if a.len() == 1 {
        assert(b.len() == 1);
        lemma_symbol_injective((a[0] as int) / 4, (b[0] as int) / 4);
        lemma_symbol_injective(((a[0] as int) % 4) * 16, ((b[0] as int) % 4) * 16);
        assert(a =~= b);
    } else if a.len() == 2 {
        assert(b.len() == 2);
        lemma_symbol_injective((a[0] as int) / 4, (b[0] as int) / 4);
        lemma_symbol_injective(((a[0] as int) % 4) * 16 + (a[1] as int) / 16, ((b[0] as int) % 4) * 16 + (b[1] as int) / 16);
        lemma_symbol_injective(((a[1] as int) % 16) * 4, ((b[1] as int) % 16) * 4);
        assert(a =~= b);
    } else {
        assert(b.len() >= 3);
        lemma_encode_head(a);
        lemma_encode_head(b);
        let ra = a.subrange(3, a.len() as int);
        let rb = b.subrange(3, b.len() as int);
        lemma_b64_encode_injective(ra, rb);
        assert(a =~= b) by {
            assert forall|i: int| 0 <= i < a.len() implies a[i] == b[i] by {
                if i >= 3 {
                    assert(a[i] == ra[i - 3]);
                    assert(b[i] == rb[i - 3]);
                }
            }
        }
    }
}

} // verus!

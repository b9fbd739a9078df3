//! Scalar primitives: decimal integer and boolean literal parsing, byte
//! to text decoding, and the float round-trip check.
//!
//! Integer and boolean parsing are implemented and proved here. Text
//! decoding and float parsing are delegated to the grammar engine and
//! trusted at their stated contracts.

use vstd::prelude::*;
use crate::token::spec_bytes;

verus! {

/// Which byte to text decoding the document uses.
#[derive(Debug, Clone, Copy, PartialEq, Eq, Structural)]
pub enum TextEncoding {
    /// The single-byte legacy Western encoding.
    Windows1252,
    /// UTF-8, decoded lossily.
    Utf8,
}

/// When scalar bytes are coerced to a narrower type than text.
#[derive(Debug, Clone, Copy, PartialEq, Eq, Structural)]
pub enum Narrowing {
    /// Coerce quoted and unquoted scalars alike.
    All,
    /// Coerce unquoted scalars; leave quoted scalars as strings.
    UnquotedOnly,
    /// Never coerce; every scalar decodes as a string.
    Never,
}

pub open spec fn is_digit(b: u8) -> bool {
    48 <= b <= 57
}

pub open spec fn all_digits(s: Seq<u8>) -> bool {
    forall|i: int| 0 <= i < s.len() ==> is_digit(#[trigger] s[i])
}

/// The value of a digit string read in base ten.
pub open spec fn dec_val(s: Seq<u8>) -> int
    decreases s.len(),
{
    if s.len() == 0 {
        0
    } else {
        dec_val(s.drop_last()) * 10 + (s.last() - 48)
    }
}

pub proof fn lemma_dec_val_push(s: Seq<u8>, d: u8)
    ensures
        dec_val(s.push(d)) == dec_val(s) * 10 + (d - 48),
{
    assert(s.push(d).drop_last() =~= s);
    assert(s.push(d).last() == d);
}

pub proof fn lemma_all_digits_cons(s: Seq<u8>)
    requires
        s.len() > 0,
    ensures
        all_digits(s) <==> (is_digit(s[0]) && all_digits(s.skip(1))),
{
    assert(forall|j: int| 0 <= j < s.len() - 1 ==> #[trigger] s.skip(1)[j] == s[j + 1]);
    if is_digit(s[0]) && all_digits(s.skip(1)) {
        assert forall|i: int| 0 <= i < s.len() implies is_digit(#[trigger] s[i]) by {
            if i > 0 {
                assert(s.skip(1)[i - 1] == s[i]);
            }
        }
    }
}

pub proof fn lemma_dec_val_nonneg(s: Seq<u8>)
    requires
        all_digits(s),
    ensures
        dec_val(s) >= 0,
    decreases s.len(),
{
    if s.len() > 0 {
        assert(all_digits(s.drop_last())) by {
            assert(forall|i: int|
                0 <= i < s.len() - 1 ==> #[trigger] s.drop_last()[i] == s[i]);
        }
        lemma_dec_val_nonneg(s.drop_last());
        assert(is_digit(s.last()));
    }
}

/// A digit string's value only grows as more digits follow.
pub proof fn lemma_dec_val_prefix(s: Seq<u8>, k: int)
    requires
        all_digits(s),
        0 <= k <= s.len(),
    ensures
        dec_val(s.take(k)) <= dec_val(s),
    decreases s.len() - k,
{
    if k < s.len() {
        let t = s.take(k + 1);
        assert(t.drop_last() =~= s.take(k));
        assert(t.last() == s[k]);
        assert(is_digit(s[k]));
        assert(all_digits(s.take(k))) by {
            assert(forall|i: int| 0 <= i < k ==> #[trigger] s.take(k)[i] == s[i]);
        }
        lemma_dec_val_nonneg(s.take(k));
        assert(dec_val(t) == dec_val(s.take(k)) * 10 + (s[k] - 48));
        lemma_dec_val_prefix(s, k + 1);
    } else {
        assert(s.take(k) =~= s);
    }
}

/// Parse the digit run `s[start..]` as an unsigned decimal; `None` when
/// a non-digit occurs or the value does not fit in 64 bits.
fn parse_u64_digits_only(s: &[u8], start: usize) -> (r: Option<u64>)
    requires
        start <= s@.len(),
    ensures
        match r {
            Some(v) => all_digits(s@.skip(start as int)) && v == dec_val(s@.skip(start as int)),
            None => !(all_digits(s@.skip(start as int)) && dec_val(s@.skip(start as int))
                <= u64::MAX),
        },
{
    let ghost full = s@.skip(start as int);
    let mut acc: u64 = 0;
    let mut i: usize = start;
    while i < s.len()
        invariant
            start <= i <= s@.len(),
            full == s@.skip(start as int),
            all_digits(s@.subrange(start as int, i as int)),
            acc == dec_val(s@.subrange(start as int, i as int)),
        decreases s@.len() - i,
    {
        let b = s[i];
        if !(48 <= b && b <= 57) {
            proof {
                assert(full[i - start] == s@[i as int]);
            }
            return None;
        }
        let d = (b - 48) as u64;
        let ghost pre = s@.subrange(start as int, i as int);
        proof {
            lemma_dec_val_push(pre, b);
            assert(s@.subrange(start as int, i + 1) =~= pre.push(b));
        }
        let step = match acc.checked_mul(10) {
            Some(x) => x.checked_add(d),
            None => None,
        };
        match step {
            Some(x) => {
                acc = x;
            },
            None => {
                proof {
                    if all_digits(full) && dec_val(full) <= u64::MAX {
                        assert(full.take(i + 1 - start) =~= s@.subrange(
                            start as int,
                            i + 1,
                        ));
                        lemma_dec_val_prefix(full, i + 1 - start);
                        assert(dec_val(s@.subrange(start as int, i + 1)) > u64::MAX);
                    }
                }
                return None;
            },
        }
        i += 1;
    }
    proof {
        assert(s@.subrange(start as int, s@.len() as int) =~= full);
    }
    Some(acc)
}

/// The digit part of an unsigned literal: an optional leading `+` is
/// dropped.
pub open spec fn u64_digits(s: Seq<u8>) -> Seq<u8> {
    if s.len() > 0 && s[0] == 43 {
        s.skip(1)
    } else {
        s
    }
}

/// Bytes parse as an unsigned 64-bit decimal: an optional `+`, then
/// digits only (an empty digit run after `+` reads as zero), with a
/// value that fits.
pub open spec fn u64_ok(s: Seq<u8>) -> bool {
    &&& s.len() >= 1
    &&& (s[0] == 43 || is_digit(s[0]))
    &&& all_digits(s.skip(1))
    &&& dec_val(u64_digits(s)) <= u64::MAX
}

/// Parse an unsigned 64-bit decimal literal.
pub fn parse_u64(s: &[u8]) -> (r: Option<u64>)
    ensures
        match r {
            Some(v) => u64_ok(s@) && v == dec_val(u64_digits(s@)),
            None => !u64_ok(s@),
        },
{
    if s.len() == 0 {
        return None;
    }
    let first = s[0];
    let start: usize = if first == 43 {
        1
    } else if 48 <= first && first <= 57 {
        0
    } else {
        return None;
    };
    proof {
        lemma_all_digits_cons(s@);
        if start == 1 {
            assert(u64_digits(s@) == s@.skip(1));
        } else {
            assert(u64_digits(s@) =~= s@.skip(0));
        }
    }
    let r = parse_u64_digits_only(s, start);
    proof {
        if start == 0 {
            assert(s@.skip(0) =~= s@);
        }
    }
    r
}

/// The sign of a signed literal.
pub open spec fn i64_sign(s: Seq<u8>) -> int {
    if s.len() > 0 && s[0] == 45 {
        -1
    } else {
        1
    }
}

/// The digit part of a signed literal: an optional leading `+` or `-`
/// is dropped.
pub open spec fn i64_digits(s: Seq<u8>) -> Seq<u8> {
    if s.len() > 0 && (s[0] == 43 || s[0] == 45) {
        s.skip(1)
    } else {
        s
    }
}

/// Bytes parse as a signed 64-bit decimal: an optional sign, then
/// digits only, with a magnitude of at most `i64::MAX` (the grammar
/// never yields the most negative value).
pub open spec fn i64_ok(s: Seq<u8>) -> bool {
    &&& s.len() >= 1
    &&& (s[0] == 43 || s[0] == 45 || is_digit(s[0]))
    &&& all_digits(s.skip(1))
    &&& dec_val(i64_digits(s)) <= i64::MAX
}

/// Parse a signed 64-bit decimal literal.
pub fn parse_i64(s: &[u8]) -> (r: Option<i64>)
    ensures
        match r {
            Some(v) => i64_ok(s@) && v == i64_sign(s@) * dec_val(i64_digits(s@)),
            None => !i64_ok(s@),
        },
{
    if s.len() == 0 {
        return None;
    }
    let first = s[0];
    let signed = first == 43 || first == 45;
    if !signed && !(48 <= first && first <= 57) {
        return None;
    }
    let start: usize = if signed {
        1
    } else {
        0
    };
    proof {
        lemma_all_digits_cons(s@);
        if signed {
            assert(i64_digits(s@) == s@.skip(1));
        } else {
            assert(i64_digits(s@) =~= s@.skip(0));
            assert(s@.skip(0) =~= s@);
        }
    }
    match parse_u64_digits_only(s, start) {
        Some(v) => {
            if v <= i64::MAX as u64 {
                if first == 45 {
                    Some((-(v as i64)) as i64)
                } else {
                    Some(v as i64)
                }
            } else {
                None
            }
        },
        None => {
            proof {
                if i64_ok(s@) {
                    lemma_dec_val_nonneg(i64_digits(s@));
                }
            }
            None
        },
    }
}

/// The decimal digit string of an unsigned value.
pub open spec fn dec_bytes(n: int) -> Seq<u8>
    decreases n,
{
    if n < 10 {
        seq![(48 + if n >= 0 { n } else { 0 }) as u8]
    } else {
        dec_bytes(n / 10).push((48 + n % 10) as u8)
    }
}

/// The decimal digit string of a signed value: a `-` sign, then the
/// magnitude's digits.
pub open spec fn dec_bytes_signed(n: int) -> Seq<u8> {
    if n < 0 {
        seq![45u8] + dec_bytes(-n)
    } else {
        dec_bytes(n)
    }
}

/// Append an unsigned value's decimal digits.
pub fn push_u64_dec(out: &mut Vec<u8>, n: u64)
    ensures
        final(out)@ == old(out)@ + dec_bytes(n as int),
    decreases n,
{
    if n < 10 {
        out.push((48 + n) as u8);
        proof {
            assert(out@ =~= old(out)@ + dec_bytes(n as int));
        }
    } else {
        let ghost base = out@;
        push_u64_dec(out, n / 10);
        out.push((48 + (n % 10)) as u8);
        proof {
            assert(out@ =~= base + dec_bytes(n as int));
        }
    }
}

/// Append a signed value's decimal digits.
pub fn push_i64_dec(out: &mut Vec<u8>, n: i64)
    ensures
        final(out)@ == old(out)@ + dec_bytes_signed(n as int),
{
    if n < 0 {
        let ghost base = out@;
        out.push(45);
        let mag: u64 = if n == i64::MIN {
            9223372036854775808u64
        } else {
            (-n) as u64
        };
        push_u64_dec(out, mag);
        proof {
            assert(out@ =~= base + dec_bytes_signed(n as int));
        }
    } else {
        push_u64_dec(out, n as u64);
    }
}

/// Bytes spell the boolean literal `yes`.
pub open spec fn is_yes(s: Seq<u8>) -> bool {
    s =~= spec_bytes("yes")
}

/// Bytes spell the boolean literal `no`.
pub open spec fn is_no(s: Seq<u8>) -> bool {
    s =~= spec_bytes("no")
}

/// Parse a boolean literal: only `yes` and `no` are recognized.
pub fn parse_bool(s: &[u8]) -> (r: Option<bool>)
    ensures
        match r {
            Some(true) => is_yes(s@),
            Some(false) => is_no(s@),
            None => !is_yes(s@) && !is_no(s@),
        },
{
    proof {
        reveal_strlit("yes");
        reveal_strlit("no");
    }
    if s.len() == 3 && s[0] == 121 && s[1] == 101 && s[2] == 115 {
        Some(true)
    } else if s.len() == 2 && s[0] == 110 && s[1] == 111 {
        Some(false)
    } else {
        None
    }
}

/// The text that the legacy Western decoding yields for the given
/// bytes: trailing ASCII whitespace trimmed, backslashes removed, each
/// remaining byte mapped through the code page, re-encoded as UTF-8.
pub uninterp spec fn win1252_of(s: Seq<u8>) -> Seq<u8>;

/// The text that the lossy UTF-8 decoding yields for the given bytes:
/// trailing ASCII whitespace trimmed, backslashes removed, invalid
/// sequences replaced.
pub uninterp spec fn utf8_of(s: Seq<u8>) -> Seq<u8>;

pub open spec fn is_ascii_space(b: u8) -> bool {
    b == 32 || b == 9 || b == 10 || b == 12 || b == 13
}

/// Plain ASCII bytes that both decodings pass through unchanged: no
/// byte above 127, no backslash, and no trailing ASCII whitespace.
pub open spec fn ascii_clean(s: Seq<u8>) -> bool {
    &&& forall|i: int| 0 <= i < s.len() ==> #[trigger] s[i] < 128 && s[i] != 92
    &&& s.len() > 0 ==> !is_ascii_space(s.last())
}

/// Relies on jomini::Windows1252Encoding::decode: the result depends on
/// the bytes alone, and clean ASCII input decodes to itself.
#[verifier::external_body]
pub fn decode_windows1252(b: &[u8]) -> (r: Vec<u8>)
    ensures
        r@ == win1252_of(b@),
        ascii_clean(b@) ==> r@ == b@,
{
    jomini::Windows1252Encoding::decode(b).into_owned().into_bytes()
}

/// Relies on jomini::Utf8Encoding::decode: the result depends on the
/// bytes alone, and clean ASCII input decodes to itself.
#[verifier::external_body]
pub fn decode_utf8(b: &[u8]) -> (r: Vec<u8>)
    ensures
        r@ == utf8_of(b@),
        ascii_clean(b@) ==> r@ == b@,
{
    jomini::Utf8Encoding::decode(b).into_owned().into_bytes()
}

/// The text that the selected decoding yields for the given bytes.
pub open spec fn decode_of(enc: TextEncoding, s: Seq<u8>) -> Seq<u8> {
    match enc {
        TextEncoding::Windows1252 => win1252_of(s),
        TextEncoding::Utf8 => utf8_of(s),
    }
}

/// Decode scalar bytes with the selected decoding.
pub fn decode_text(enc: TextEncoding, b: &[u8]) -> (r: Vec<u8>)
    ensures
        r@ == decode_of(enc, b@),
        ascii_clean(b@) ==> r@ == b@,
{
    match enc {
        TextEncoding::Windows1252 => decode_windows1252(b),
        TextEncoding::Utf8 => decode_utf8(b),
    }
}

/// The canonical decimal text of the 64-bit float that the grammar
/// engine parses from the given bytes, or `None` when the bytes do not
/// parse as a float that represents their value exactly. A function of
/// the bytes alone.
pub uninterp spec fn fdec_of(s: Seq<u8>) -> Option<Seq<u8>>;

/// Relies on jomini::Scalar::to_f64: `Ok` exactly when the bytes parse
/// as a decimal number (optional sign, optional fraction, optional `f`
/// suffix) whose value survives the 64-bit float round trip; the
/// parsed value is formatted back to decimal text.
#[verifier::external_body]
pub fn float_repr(b: &[u8]) -> (r: Option<Vec<u8>>)
    ensures
        match r {
            Some(v) => fdec_of(b@) == Some(v@),
            None => fdec_of(b@) is None,
        },
{
    match jomini::Scalar::new(b).to_f64() {
        Ok(f) => Some(format!("{:?}", f).into_bytes()),
        Err(_) => None,
    }
}

} // verus!

//! Calendar dates of the grammar: `Y.M.D` and `Y.M.D.H` literals.
//!
//! The literal's month, day and hour are 1-based; the stored month and
//! hour are 0-based (a literal month 1 is stored as 0). `parse_date`
//! decides and computes the date that scalar bytes spell, and
//! `push_date` formats a date back into the grammar's form.

use vstd::prelude::*;
use crate::scalar::{all_digits, dec_bytes, dec_bytes_signed, dec_val, is_digit, push_i64_dec,
    push_u64_dec};

verus! {

/// A date as the grammar stores it: a signed year, a 0-based month, a
/// 1-based day, and an optional 0-based hour.
#[derive(Debug, Clone, Copy, PartialEq, Eq)]
pub struct GameDate {
    pub year: i16,
    pub month0: u8,
    pub day: u8,
    pub hour0: Option<u8>,
}

impl GameDate {
    /// Stored fields stay in the calendar's ranges.
    pub open spec fn valid(self) -> bool {
        &&& self.month0 < 12
        &&& 1 <= self.day <= 31
        &&& match self.hour0 {
            Some(h) => h < 24,
            None => true,
        }
    }
}

/// Length of the sign prefix of a year literal.
pub open spec fn sign_len(s: Seq<u8>) -> int {
    if s.len() > 0 && (s[0] == 43 || s[0] == 45) {
        1
    } else {
        0
    }
}

/// The index of the first non-digit at or after `i`.
pub open spec fn digit_run_end(s: Seq<u8>, i: int) -> int
    decreases s.len() - i when 0 <= i <= s.len()
{
    if i < s.len() && is_digit(s[i]) {
        digit_run_end(s, i + 1)
    } else {
        i
    }
}

/// The date that the bytes spell, or `None` when they do not spell
/// one.
///
/// The literal is a signed year that fits 16 bits, a dot, a one or two
/// digit month in 1 to 12, a dot, a one or two digit day in 1 to 31,
/// and optionally a dot and a one or two digit hour in 1 to 24 whose
/// first digit is not zero. A bare number, a component of three or
/// more digits, or any other byte fails the parse.
pub open spec fn spec_parse_date(s: Seq<u8>) -> Option<GameDate> {
    let sl = sign_len(s);
    let ye = digit_run_end(s, sl);
    if s.len() == 0 || (sl == 0 && !is_digit(s[0])) || ye == s.len() || s[ye] != 46 {
        None
    } else {
        let ymag = dec_val(s.subrange(sl, ye));
        let year_ok = if s[0] == 45 {
            ymag <= 32768
        } else {
            ymag <= 32767
        };
        if !year_ok {
            None
        } else {
            let year: int = if s[0] == 45 {
                -ymag
            } else {
                ymag
            };
            spec_parse_month(s, ye + 1, year)
        }
    }
}

/// Continue the date parse at the month component.
pub open spec fn spec_parse_month(s: Seq<u8>, i: int, year: int) -> Option<GameDate> {
    if !(i < s.len() && is_digit(s[i])) || i + 1 >= s.len() {
        None
    } else if s[i + 1] == 46 {
        spec_parse_day(s, i + 2, year, s[i] - 48)
    } else if is_digit(s[i + 1]) && i + 2 < s.len() && s[i + 2] == 46 {
        spec_parse_day(s, i + 3, year, (s[i] - 48) * 10 + (s[i + 1] - 48))
    } else {
        None
    }
}

/// Continue the date parse at the day component, just past its dot.
pub open spec fn spec_parse_day(s: Seq<u8>, i: int, year: int, month: int) -> Option<GameDate> {
    if !(i < s.len() && is_digit(s[i])) {
        None
    } else if i + 1 == s.len() {
        spec_make_date(year, month, s[i] - 48, -1)
    } else if s[i + 1] == 46 {
        spec_parse_hour(s, i + 2, year, month, s[i] - 48)
    } else if is_digit(s[i + 1]) && i + 2 == s.len() {
        spec_make_date(year, month, (s[i] - 48) * 10 + (s[i + 1] - 48), -1)
    } else if is_digit(s[i + 1]) && i + 2 < s.len() && s[i + 2] == 46 {
        spec_parse_hour(s, i + 3, year, month, (s[i] - 48) * 10 + (s[i + 1] - 48))
    } else {
        None
    }
}

/// Continue the date parse at the hour component, just past its dot.
pub open spec fn spec_parse_hour(s: Seq<u8>, i: int, year: int, month: int, day: int) -> Option<
    GameDate,
> {
    if !(i < s.len() && is_digit(s[i]) && s[i] != 48) {
        None
    } else if i + 1 == s.len() {
        spec_make_date(year, month, day, s[i] - 48)
    } else if is_digit(s[i + 1]) && i + 2 == s.len() {
        spec_make_date(year, month, day, (s[i] - 48) * 10 + (s[i + 1] - 48))
    } else {
        None
    }
}

/// Validate the 1-based components and shift month and hour to their
/// 0-based stored form; an hour of -1 means none was written.
pub open spec fn spec_make_date(year: int, month: int, day: int, hour: int) -> Option<GameDate> {
    if 1 <= month <= 12 && 1 <= day <= 31 && (hour == -1 || 1 <= hour <= 24) {
        Some(
            GameDate {
                year: year as i16,
                month0: (month - 1) as u8,
                day: day as u8,
                hour0: if hour == -1 {
                    None
                } else {
                    Some((hour - 1) as u8)
                },
            },
        )
    } else {
        None
    }
}

/// Parse a date literal.
pub fn parse_date(s: &[u8]) -> (r: Option<GameDate>)
    ensures
        r == spec_parse_date(s@),
        match r {
            Some(d) => d.valid(),
            None => true,
        },
{
    let n = s.len();
    if n == 0 {
        return None;
    }
    let first = s[0];
    let sl: usize = if first == 43 || first == 45 {
        1
    } else if 48 <= first && first <= 57 {
        0
    } else {
        return None;
    };
    // scan the year's digit run, tracking its value saturated above the
    // 16-bit range
    let mut i: usize = sl;
    let mut ymag: u32 = 0;
    let mut over = false;
    while i < n && 48 <= s[i] && s[i] <= 57
        invariant
            sl <= i <= n,
            n == s@.len(),
            sl == sign_len(s@),
            all_digits(s@.subrange(sl as int, i as int)),
            digit_run_end(s@, sl as int) == digit_run_end(s@, i as int),
            !over ==> ymag == dec_val(s@.subrange(sl as int, i as int)) && ymag <= 32768,
            over ==> dec_val(s@.subrange(sl as int, i as int)) > 32768,
        decreases n - i,
    {
        let d = (s[i] - 48) as u32;
        let ghost pre = s@.subrange(sl as int, i as int);
        proof {
            crate::scalar::lemma_dec_val_push(pre, s@[i as int] as u8);
            assert(s@.subrange(sl as int, i + 1) =~= pre.push(s@[i as int]));
        }
        if !over {
            let next = ymag * 10 + d;
            if next > 32768 {
                over = true;
            } else {
                ymag = next;
            }
            proof {
                if over {
                    assert(dec_val(s@.subrange(sl as int, i + 1)) > 32768);
                }
            }
        } else {
            proof {
                let ghost full = s@.subrange(sl as int, i + 1);
                assert(full.drop_last() =~= pre);
                crate::scalar::lemma_dec_val_nonneg(pre);
                assert(dec_val(full) == dec_val(pre) * 10 + (s@[i as int] - 48));
            }
        }
        i += 1;
    }
    let ye = i;
    proof {
        assert(digit_run_end(s@, ye as int) == ye as int);
    }
    if ye == n || s[ye] != 46 {
        return None;
    }
    let year_ok = if first == 45 {
        !over && ymag <= 32768
    } else {
        !over && ymag <= 32767
    };
    if !year_ok {
        return None;
    }
    let year: i16 = if first == 45 {
        if ymag == 32768 {
            i16::MIN
        } else {
            -(ymag as i16)
        }
    } else {
        ymag as i16
    };
    parse_month(s, ye + 1, year)
}

/// Parse the month component and the rest of the literal.
fn parse_month(s: &[u8], i: usize, year: i16) -> (r: Option<GameDate>)
    requires
        i <= s@.len(),
    ensures
        r == spec_parse_month(s@, i as int, year as int),
        match r {
            Some(d) => d.valid(),
            None => true,
        },
{
    let n = s.len();
    if !(i < n && 48 <= s[i] && s[i] <= 57) || i + 1 >= n {
        None
    } else if s[i + 1] == 46 {
        parse_day(s, i + 2, year, s[i] - 48)
    } else if 48 <= s[i + 1] && s[i + 1] <= 57 && i + 2 < n && s[i + 2] == 46 {
        parse_day(s, i + 3, year, (s[i] - 48) * 10 + (s[i + 1] - 48))
    } else {
        None
    }
}

/// Parse the day component and the rest of the literal.
fn parse_day(s: &[u8], i: usize, year: i16, month: u8) -> (r: Option<GameDate>)
    requires
        i <= s@.len(),
        month < 100,
    ensures
        r == spec_parse_day(s@, i as int, year as int, month as int),
        match r {
            Some(d) => d.valid(),
            None => true,
        },
{
    let n = s.len();
    if !(i < n && 48 <= s[i] && s[i] <= 57) {
        None
    } else if i + 1 == n {
        make_date(year, month, s[i] - 48, 255)
    } else if s[i + 1] == 46 {
        parse_hour(s, i + 2, year, month, s[i] - 48)
    } else if 48 <= s[i + 1] && s[i + 1] <= 57 && i + 2 == n {
        make_date(year, month, (s[i] - 48) * 10 + (s[i + 1] - 48), 255)
    } else if 48 <= s[i + 1] && s[i + 1] <= 57 && i + 2 < n && s[i + 2] == 46 {
        parse_hour(s, i + 3, year, month, (s[i] - 48) * 10 + (s[i + 1] - 48))
    } else {
        None
    }
}

/// Parse the hour component, which must end the literal.
fn parse_hour(s: &[u8], i: usize, year: i16, month: u8, day: u8) -> (r: Option<GameDate>)
    requires
        i <= s@.len(),
        month < 100,
        day < 100,
    ensures
        r == spec_parse_hour(s@, i as int, year as int, month as int, day as int),
        match r {
            Some(d) => d.valid(),
            None => true,
        },
{
    let n = s.len();
    if !(i < n && 48 < s[i] && s[i] <= 57) {
        None
    } else if i + 1 == n {
        make_date(year, month, day, s[i] - 48)
    } else if 48 <= s[i + 1] && s[i + 1] <= 57 && i + 2 == n {
        make_date(year, month, day, (s[i] - 48) * 10 + (s[i + 1] - 48))
    } else {
        None
    }
}

/// Validate the components; an hour of 255 means none was written.
fn make_date(year: i16, month: u8, day: u8, hour: u8) -> (r: Option<GameDate>)
    requires
        month < 100,
        day < 100,
    ensures
        r == spec_make_date(
            year as int,
            month as int,
            day as int,
            if hour == 255 {
                -1
            } else {
                hour as int
            },
        ),
        match r {
            Some(d) => d.valid(),
            None => true,
        },
{
    if 1 <= month && month <= 12 && 1 <= day && day <= 31 && (hour == 255 || (1 <= hour && hour
        <= 24)) {
        Some(
            GameDate {
                year,
                month0: month - 1,
                day,
                hour0: if hour == 255 {
                    None
                } else {
                    Some(hour - 1)
                },
            },
        )
    } else {
        None
    }
}

/// The bytes that a date writes back to: the year, the 1-based month
/// and the day, dot-separated, then the 1-based hour when one is held.
pub open spec fn spec_date_bytes(d: GameDate) -> Seq<u8> {
    let head = dec_bytes_signed(d.year as int) + seq![46u8] + dec_bytes(d.month0 + 1) + seq![46u8]
        + dec_bytes(d.day as int);
    match d.hour0 {
        Some(h) => head + seq![46u8] + dec_bytes(h + 1),
        None => head,
    }
}

/// Append a date in the grammar's dotted form.
pub fn push_date(out: &mut Vec<u8>, d: &GameDate)
    ensures
        final(out)@ == old(out)@ + spec_date_bytes(*d),
{
    let ghost base = out@;
    push_i64_dec(out, d.year as i64);
    out.push(46);
    push_u64_dec(out, d.month0 as u64 + 1);
    out.push(46);
    push_u64_dec(out, d.day as u64);
    match d.hour0 {
        Some(h) => {
            out.push(46);
            push_u64_dec(out, h as u64 + 1);
        },
        None => {},
    }
    proof {
        assert(out@ =~= base + spec_date_bytes(*d));
    }
}

} // verus!

//! Calendar dates in the `YYYY-MM-DD` form: validity, ordering, the
//! successor function used for range walks, parsing and formatting.

use vstd::prelude::*;
use vstd::string::StringSliceAdditionalSpecFns;
use chrono::Datelike;

verus! {

/// A calendar date. Well-formed values (see [`Date::wf`]) are real calendar
/// dates with a four-digit year, which is exactly what the textual
/// `YYYY-MM-DD` form can carry.
#[derive(Clone, Copy, PartialEq, Eq, Structural, Debug)]
pub struct Date {
    pub year: u32,
    pub month: u32,
    pub day: u32,
}

pub open spec fn is_leap_year(y: int) -> bool {
    y % 4 == 0 && (y % 100 != 0 || y % 400 == 0)
}

pub open spec fn spec_days_in_month(y: int, m: int) -> int {
    if m == 2 {
        if is_leap_year(y) {
            29
        } else {
            28
        }
    } else if m == 4 || m == 6 || m == 9 || m == 11 {
        30
    } else {
        31
    }
}

impl Date {
    /// A real calendar date with a four-digit year.
    pub open spec fn wf(self) -> bool {
        self.year <= 9999 && 1 <= self.month <= 12 && 1 <= self.day
            <= spec_days_in_month(self.year as int, self.month as int)
    }

    /// An integer encoding under which the lexicographic (year, month, day)
    /// order of well-formed dates coincides with the order of keys.
    /// The strides leave room for every month (at most 12) and day (at most 31).
    pub open spec fn key(self) -> int {
        self.year * 416 + self.month * 32 + self.day
    }

    /// The next calendar day.
    pub open spec fn spec_next(self) -> Date {
        if self.day < spec_days_in_month(self.year as int, self.month as int) {
            Date { day: (self.day + 1) as u32, ..self }
        } else if self.month < 12 {
            Date { month: (self.month + 1) as u32, day: 1, ..self }
        } else {
            Date { year: (self.year + 1) as u32, month: 1, day: 1 }
        }
    }
}

/// Two well-formed dates with the same key are the same date.
pub proof fn lemma_key_injective(a: Date, b: Date)
    requires
        a.wf(),
        b.wf(),
        a.key() == b.key(),
    ensures
        a == b,
{
}

pub fn leap_year(y: u32) -> (r: bool)
    ensures
        r == is_leap_year(y as int),
{
    y % 4 == 0 && (y % 100 != 0 || y % 400 == 0)
}

pub fn days_in_month(y: u32, m: u32) -> (r: u32)
    requires
        1 <= m <= 12,
    ensures
        r == spec_days_in_month(y as int, m as int),
{
    if m == 2 {
        if leap_year(y) {
            29
        } else {
            28
        }
    } else if m == 4 || m == 6 || m == 9 || m == 11 {
        30
    } else {
        31
    }
}

/// Whether `a` is on or before `b` in calendar order.
pub fn date_le(a: &Date, b: &Date) -> (r: bool)
    requires
        a.wf(),
        b.wf(),
    ensures
        r == (a.key() <= b.key()),
{
    let ka: u32 = a.year * 416 + a.month * 32 + a.day;
    let kb: u32 = b.year * 416 + b.month * 32 + b.day;
    ka <= kb
}

/// The day after `d`. The last representable date is excluded so that the
/// result is again well-formed.
pub fn next_date(d: &Date) -> (r: Date)
    requires
        d.wf(),
        !(d.year == 9999 && d.month == 12 && d.day == 31),
    ensures
        r == d.spec_next(),
        r.wf(),
        d.key() < r.key(),
{
    let dim = days_in_month(d.year, d.month);
    if d.day < dim {
        Date { year: d.year, month: d.month, day: d.day + 1 }
    } else if d.month < 12 {
        Date { year: d.year, month: d.month + 1, day: 1 }
    } else {
        Date { year: d.year + 1, month: 1, day: 1 }
    }
}

pub open spec fn is_digit_byte(b: u8) -> bool {
    48 <= b <= 57
}

pub open spec fn digit_byte_val(b: u8) -> int {
    b - 48
}

/// The shape `YYYY-MM-DD`: ten bytes, digits and two dashes.
pub open spec fn spec_date_format_ok(s: Seq<u8>) -> bool {
    s.len() == 10 && is_digit_byte(s[0]) && is_digit_byte(s[1]) && is_digit_byte(s[2])
        && is_digit_byte(s[3]) && s[4] == 45 && is_digit_byte(s[5]) && is_digit_byte(s[6])
        && s[7] == 45 && is_digit_byte(s[8]) && is_digit_byte(s[9])
}

/// The date the ten bytes spell, digit by digit.
pub open spec fn spec_spelled_date(s: Seq<u8>) -> Date {
    Date {
        year: (digit_byte_val(s[0]) * 1000 + digit_byte_val(s[1]) * 100 + digit_byte_val(s[2]) * 10
            + digit_byte_val(s[3])) as u32,
        month: (digit_byte_val(s[5]) * 10 + digit_byte_val(s[6])) as u32,
        day: (digit_byte_val(s[8]) * 10 + digit_byte_val(s[9])) as u32,
    }
}

/// What parsing a date string yields: the spelled date when the bytes have
/// the `YYYY-MM-DD` shape and name a real calendar date, nothing otherwise.
pub open spec fn spec_parse_date(s: Seq<u8>) -> Option<Date> {
    if spec_date_format_ok(s) && spec_spelled_date(s).wf() {
        Some(spec_spelled_date(s))
    } else {
        None
    }
}

fn digit_value(b: u8) -> (r: Option<u32>)
    ensures
        r matches Some(v) ==> is_digit_byte(b) && v == digit_byte_val(b),
        r is None ==> !is_digit_byte(b),
{
    if 48 <= b && b <= 57 {
        Some((b - 48) as u32)
    } else {
        None
    }
}

/// Parse a `YYYY-MM-DD` string into a well-formed date; `None` when the
/// string has the wrong shape or names no real calendar date.
pub fn parse_date(s: &str) -> (r: Option<Date>)
    ensures
        r == spec_parse_date(s.spec_bytes()),
        r matches Some(d) ==> d.wf(),
{
    let b = s.as_bytes();
    if b.len() != 10 {
        return None;
    }
    if b[4] != 45 || b[7] != 45 {
        return None;
    }
    let d0 = digit_value(b[0]);
    let d1 = digit_value(b[1]);
    let d2 = digit_value(b[2]);
    let d3 = digit_value(b[3]);
    let d5 = digit_value(b[5]);
    let d6 = digit_value(b[6]);
    let d8 = digit_value(b[8]);
    let d9 = digit_value(b[9]);
    match (d0, d1, d2, d3, d5, d6, d8, d9) {
        (
            Some(y0),
            Some(y1),
            Some(y2),
            Some(y3),
            Some(m0),
            Some(m1),
            Some(dd0),
            Some(dd1),
        ) => {
            let year: u32 = y0 * 1000 + y1 * 100 + y2 * 10 + y3;
            let month: u32 = m0 * 10 + m1;
            let day: u32 = dd0 * 10 + dd1;
            if 1 <= month && month <= 12 && 1 <= day && day <= days_in_month(year, month) {
                Some(Date { year, month, day })
            } else {
                None
            }
        },
        _ => None,
    }
}

/// The digit character for a value below ten.
pub open spec fn digit_char(v: int) -> char {
    if v == 0 {
        '0'
    } else if v == 1 {
        '1'
    } else if v == 2 {
        '2'
    } else if v == 3 {
        '3'
    } else if v == 4 {
        '4'
    } else if v == 5 {
        '5'
    } else if v == 6 {
        '6'
    } else if v == 7 {
        '7'
    } else if v == 8 {
        '8'
    } else {
        '9'
    }
}

/// The `YYYY-MM-DD` rendering of a date, character by character.
pub open spec fn spec_format_date(d: Date) -> Seq<char> {
    seq![
        digit_char(d.year as int / 1000),
        digit_char((d.year as int / 100) % 10),
        digit_char((d.year as int / 10) % 10),
        digit_char(d.year as int % 10),
        '-',
        digit_char(d.month as int / 10),
        digit_char(d.month as int % 10),
        '-',
        digit_char(d.day as int / 10),
        digit_char(d.day as int % 10),
    ]
}

fn push_digit(out: &mut String, v: u32)
    requires
        v <= 9,
    ensures
        final(out)@ == old(out)@ + seq![digit_char(v as int)],
{
    match v {
        0 => {
            proof {
                reveal_strlit("0");
            }
            out.append("0");
        },
        1 => {
            proof {
                reveal_strlit("1");
            }
            out.append("1");
        },
        2 => {
            proof {
                reveal_strlit("2");
            }
            out.append("2");
        },
        3 => {
            proof {
                reveal_strlit("3");
            }
            out.append("3");
        },
        4 => {
            proof {
                reveal_strlit("4");
            }
            out.append("4");
        },
        5 => {
            proof {
                reveal_strlit("5");
            }
            out.append("5");
        },
        6 => {
            proof {
                reveal_strlit("6");
            }
            out.append("6");
        },
        7 => {
            proof {
                reveal_strlit("7");
            }
            out.append("7");
        },
        8 => {
            proof {
                reveal_strlit("8");
            }
            out.append("8");
        },
        _ => {
            proof {
                reveal_strlit("9");
            }
            out.append("9");
        },
    }
    proof {
        assert(final(out)@ =~= old(out)@ + seq![digit_char(v as int)]);
    }
}

fn push_dash(out: &mut String)
    ensures
        final(out)@ == old(out)@ + seq!['-'],
{
    proof {
        reveal_strlit("-");
    }
    out.append("-");
    proof {
        assert(final(out)@ =~= old(out)@ + seq!['-']);
    }
}

/// Render a well-formed date as `YYYY-MM-DD`.
pub fn format_date(d: &Date) -> (r: String)
    requires
        d.wf(),
    ensures
        r@ == spec_format_date(*d),
{
    let mut out = String::new();
    push_digit(&mut out, d.year / 1000);
    push_digit(&mut out, (d.year / 100) % 10);
    push_digit(&mut out, (d.year / 10) % 10);
    push_digit(&mut out, d.year % 10);
    push_dash(&mut out);
    push_digit(&mut out, d.month / 10);
    push_digit(&mut out, d.month % 10);
    push_dash(&mut out);
    push_digit(&mut out, d.day / 10);
    push_digit(&mut out, d.day % 10);
    proof {
        assert(out@ =~= spec_format_date(*d));
    }
    out
}

/// A digit value below ten renders as the ASCII digit character whose
/// byte value sits that many places above the zero digit.
proof fn lemma_digit_char_byte(v: int)
    requires
        0 <= v <= 9,
    ensures
        '\0' <= digit_char(v) <= '\u{7f}',
        digit_char(v) as u8 == 48 + v,
        is_digit_byte((48 + v) as u8),
        digit_byte_val((48 + v) as u8) == v,
{
}

/// The four decimal digits of a number below ten thousand recompose to it.
proof fn lemma_four_digits(y: int)
    requires
        0 <= y <= 9999,
    ensures
        (y / 1000) * 1000 + ((y / 100) % 10) * 100 + ((y / 10) % 10) * 10 + y % 10 == y,
        0 <= y / 1000 <= 9,
        0 <= (y / 100) % 10 <= 9,
        0 <= (y / 10) % 10 <= 9,
        0 <= y % 10 <= 9,
{
    vstd::arithmetic::div_mod::lemma_fundamental_div_mod(y, 10);
    vstd::arithmetic::div_mod::lemma_fundamental_div_mod(y / 10, 10);
    vstd::arithmetic::div_mod::lemma_fundamental_div_mod(y / 100, 10);
    vstd::arithmetic::div_mod::lemma_div_denominator(y, 10, 10);
    vstd::arithmetic::div_mod::lemma_div_denominator(y, 100, 10);
    vstd::arithmetic::div_mod::lemma_mod_bound(y, 10);
    vstd::arithmetic::div_mod::lemma_mod_bound(y / 10, 10);
    vstd::arithmetic::div_mod::lemma_mod_bound(y / 100, 10);
    assert((y / 10) / 10 == y / 100);
    assert((y / 100) / 10 == y / 1000);
}

/// The two decimal digits of a number below one hundred recompose to it.
proof fn lemma_two_digits(m: int)
    requires
        0 <= m <= 99,
    ensures
        (m / 10) * 10 + m % 10 == m,
        0 <= m / 10 <= 9,
        0 <= m % 10 <= 9,
{
    vstd::arithmetic::div_mod::lemma_fundamental_div_mod(m, 10);
    vstd::arithmetic::div_mod::lemma_mod_bound(m, 10);
}

/// Rendering a well-formed date as `YYYY-MM-DD` and parsing the rendered
/// text back yields the same date.
pub proof fn lemma_format_parse_round_trip(d: Date)
    requires
        d.wf(),
    ensures
        spec_parse_date(vstd::utf8::encode_utf8(spec_format_date(d))) == Some(d),
{
    let chars = spec_format_date(d);
    let y = d.year as int;
    let m = d.month as int;
    let dd = d.day as int;
    lemma_four_digits(y);
    lemma_two_digits(m);
    lemma_two_digits(dd);
    lemma_digit_char_byte(y / 1000);
    lemma_digit_char_byte((y / 100) % 10);
    lemma_digit_char_byte((y / 10) % 10);
    lemma_digit_char_byte(y % 10);
    lemma_digit_char_byte(m / 10);
    lemma_digit_char_byte(m % 10);
    lemma_digit_char_byte(dd / 10);
    lemma_digit_char_byte(dd % 10);
    assert(vstd::utf8::is_ascii_chars(chars)) by {
        assert forall|i| 0 <= i < chars.len() implies '\0' <= #[trigger] chars[i]
            <= '\u{7f}' by {
            assert(chars[4] == '-');
            assert(chars[7] == '-');
        }
    }
    vstd::utf8::is_ascii_chars_encode_utf8(chars);
    let b = vstd::utf8::encode_utf8(chars);
    assert(b.len() == 10);
    assert(b[0] == digit_char(y / 1000) as u8);
    assert(b[1] == digit_char((y / 100) % 10) as u8);
    assert(b[2] == digit_char((y / 10) % 10) as u8);
    assert(b[3] == digit_char(y % 10) as u8);
    assert(b[4] == '-' as u8);
    assert(b[5] == digit_char(m / 10) as u8);
    assert(b[6] == digit_char(m % 10) as u8);
    assert(b[7] == '-' as u8);
    assert(b[8] == digit_char(dd / 10) as u8);
    assert(b[9] == digit_char(dd % 10) as u8);
    assert(spec_date_format_ok(b));
    assert(spec_spelled_date(b).year == d.year);
    assert(spec_spelled_date(b).month == d.month);
    assert(spec_spelled_date(b).day == d.day);
    assert(spec_spelled_date(b) == d);
}

/// Relies on chrono::Local::now and chrono::NaiveDate's Datelike accessors
/// for the current civil date: month is always in 1..=12 and day in 1..=31.
#[verifier::external_body]
fn current_ymd() -> (r: (i32, u32, u32))
    ensures
        1 <= r.1 <= 12,
        1 <= r.2 <= 31,
{
    let now = chrono::Local::now().date_naive();
    (now.year(), now.month(), now.day())
}

/// Today's date according to the system clock, checked to be a well-formed
/// calendar date; a fixed well-formed date stands in if the clock reports
/// something outside the four-digit-year range this library covers.
pub fn today() -> (r: Date)
    ensures
        r.wf(),
{
    let (y, m, d) = current_ymd();
    if 0 <= y && y <= 9999 {
        if d <= days_in_month(y as u32, m) {
            return Date { year: y as u32, month: m, day: d };
        }
    }
    Date { year: 2000, month: 1, day: 1 }
}

} // verus!

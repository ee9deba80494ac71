use vstd::prelude::*;
use crate::nums::dec_digits;
use crate::nums::render_i32;
use crate::nums::format_u32;
use crate::nums::format_i32;

verus! {

/// A calendar timestamp with seconds precision. Ordering is lexicographic on
/// (year, month, day, hour, minute, second), which is chronological order for
/// well-formed calendar dates.
#[derive(Clone, Copy, PartialEq, Eq, Structural, Debug)]
pub struct Timestamp {
    pub year: i32,
    pub month: u32,
    pub day: u32,
    pub hour: u32,
    pub minute: u32,
    pub second: u32,
}

/// Strict chronological order on timestamps.
pub open spec fn ts_lt(a: Timestamp, b: Timestamp) -> bool {
    if a.year != b.year {
        a.year < b.year
    } else if a.month != b.month {
        a.month < b.month
    } else if a.day != b.day {
        a.day < b.day
    } else if a.hour != b.hour {
        a.hour < b.hour
    } else if a.minute != b.minute {
        a.minute < b.minute
    } else {
        a.second < b.second
    }
}

/// Non-strict chronological order on timestamps.
pub open spec fn ts_le(a: Timestamp, b: Timestamp) -> bool {
    ts_lt(a, b) || a == b
}

impl Timestamp {
    /// True iff `self` is strictly earlier than `other`.
    pub fn lt(&self, other: &Timestamp) -> (r: bool)
        ensures
            r == ts_lt(*self, *other),
    {
        if self.year != other.year {
            self.year < other.year
        } else if self.month != other.month {
            self.month < other.month
        } else if self.day != other.day {
            self.day < other.day
        } else if self.hour != other.hour {
            self.hour < other.hour
        } else if self.minute != other.minute {
            self.minute < other.minute
        } else {
            self.second < other.second
        }
    }
}

/// A leap year of the proleptic Gregorian calendar.
pub open spec fn is_leap_year(y: int) -> bool {
    (y % 4 == 0 && y % 100 != 0) || y % 400 == 0
}

/// Days in a month of the proleptic Gregorian calendar.
pub open spec fn days_in_month(y: int, m: int) -> int {
    if m == 1 || m == 3 || m == 5 || m == 7 || m == 8 || m == 10 || m == 12 {
        31
    } else if m == 4 || m == 6 || m == 9 || m == 11 {
        30
    } else if is_leap_year(y) {
        29
    } else {
        28
    }
}

/// A timestamp that names a real calendar date and time of day, within the
/// four-digit years.
pub open spec fn valid_calendar(t: Timestamp) -> bool {
    &&& 0 <= t.year <= 9999
    &&& 1 <= t.month <= 12
    &&& 1 <= t.day <= days_in_month(t.year as int, t.month as int)
    &&& t.hour < 24
    &&& t.minute < 60
    &&& t.second < 60
}

/// Decimal digits zero-padded to width two.
pub open spec fn pad2(n: int) -> Seq<char> {
    if n < 10 {
        seq!['0'] + dec_digits(n)
    } else {
        dec_digits(n)
    }
}

/// Decimal digits zero-padded to width four.
pub open spec fn pad4(n: int) -> Seq<char> {
    if n < 10 {
        seq!['0', '0', '0'] + dec_digits(n)
    } else if n < 100 {
        seq!['0', '0'] + dec_digits(n)
    } else if n < 1000 {
        seq!['0'] + dec_digits(n)
    } else {
        dec_digits(n)
    }
}

/// The year part of a rendered timestamp: four-digit years are zero-padded,
/// anything else is rendered as a plain signed number.
pub open spec fn year_chars(y: int) -> Seq<char> {
    if 0 <= y <= 9999 {
        pad4(y)
    } else {
        render_i32(y)
    }
}

/// The canonical text of a timestamp: `YYYY-MM-DD HH:MM:SS`.
pub open spec fn render_ts(t: Timestamp) -> Seq<char> {
    year_chars(t.year as int) + seq!['-'] + pad2(t.month as int) + seq!['-'] + pad2(t.day as int)
        + seq![' '] + pad2(t.hour as int) + seq![':'] + pad2(t.minute as int) + seq![':'] + pad2(
        t.second as int,
    )
}

/// A zero-padded width-two number is all digits.
proof fn lemma_pad2_digits(n: int)
    requires
        n >= 0,
    ensures
        crate::nums::all_digits(pad2(n)),
{
    crate::nums::lemma_dec_digits_ok(n);
    if n < 10 {
        assert forall|i: int| 0 <= i < seq!['0'].len() implies crate::nums::is_digit(
            seq!['0'][i],
        ) by {
            assert(seq!['0'][i] == '0');
        }
        crate::nums::lemma_all_digits_concat(seq!['0'], dec_digits(n));
    }
}

/// A zero-padded width-four number is all digits.
proof fn lemma_pad4_digits(n: int)
    requires
        n >= 0,
    ensures
        crate::nums::all_digits(pad4(n)),
{
    crate::nums::lemma_dec_digits_ok(n);
    assert forall|i: int| 0 <= i < seq!['0', '0', '0'].len() implies crate::nums::is_digit(
        seq!['0', '0', '0'][i],
    ) by {
        assert(seq!['0', '0', '0'][i] == '0');
    }
    assert forall|i: int| 0 <= i < seq!['0', '0'].len() implies crate::nums::is_digit(
        seq!['0', '0'][i],
    ) by {
        assert(seq!['0', '0'][i] == '0');
    }
    assert forall|i: int| 0 <= i < seq!['0'].len() implies crate::nums::is_digit(seq!['0'][i]) by {
        assert(seq!['0'][i] == '0');
    }
    if n < 10 {
        crate::nums::lemma_all_digits_concat(seq!['0', '0', '0'], dec_digits(n));
    } else if n < 100 {
        crate::nums::lemma_all_digits_concat(seq!['0', '0'], dec_digits(n));
    } else if n < 1000 {
        crate::nums::lemma_all_digits_concat(seq!['0'], dec_digits(n));
    }
}

/// A rendered four-digit-year timestamp holds only digits and the
/// separators `-`, ` ` and `:`: neither a double quote nor a comma.
pub proof fn lemma_render_ts_clean(t: Timestamp)
    requires
        0 <= t.year <= 9999,
    ensures
        crate::chars::clean_field(render_ts(t)),
{
    lemma_pad4_digits(t.year as int);
    lemma_pad2_digits(t.month as int);
    lemma_pad2_digits(t.day as int);
    lemma_pad2_digits(t.hour as int);
    lemma_pad2_digits(t.minute as int);
    lemma_pad2_digits(t.second as int);
    crate::nums::lemma_digits_clean(pad4(t.year as int));
    crate::nums::lemma_digits_clean(pad2(t.month as int));
    crate::nums::lemma_digits_clean(pad2(t.day as int));
    crate::nums::lemma_digits_clean(pad2(t.hour as int));
    crate::nums::lemma_digits_clean(pad2(t.minute as int));
    crate::nums::lemma_digits_clean(pad2(t.second as int));
    let dash = seq!['-'];
    let sp = seq![' '];
    let col = seq![':'];
    assert forall|i: int| 0 <= i < dash.len() implies dash[i] != '"' && dash[i] != ',' by {
        assert(dash[i] == '-');
    }
    assert forall|i: int| 0 <= i < sp.len() implies sp[i] != '"' && sp[i] != ',' by {
        assert(sp[i] == ' ');
    }
    assert forall|i: int| 0 <= i < col.len() implies col[i] != '"' && col[i] != ',' by {
        assert(col[i] == ':');
    }
    let p1 = year_chars(t.year as int);
    let p2 = p1 + dash;
    crate::chars::lemma_clean_concat(p1, dash);
    let p3 = p2 + pad2(t.month as int);
    crate::chars::lemma_clean_concat(p2, pad2(t.month as int));
    let p4 = p3 + dash;
    crate::chars::lemma_clean_concat(p3, dash);
    let p5 = p4 + pad2(t.day as int);
    crate::chars::lemma_clean_concat(p4, pad2(t.day as int));
    let p6 = p5 + sp;
    crate::chars::lemma_clean_concat(p5, sp);
    let p7 = p6 + pad2(t.hour as int);
    crate::chars::lemma_clean_concat(p6, pad2(t.hour as int));
    let p8 = p7 + col;
    crate::chars::lemma_clean_concat(p7, col);
    let p9 = p8 + pad2(t.minute as int);
    crate::chars::lemma_clean_concat(p8, pad2(t.minute as int));
    let p10 = p9 + col;
    crate::chars::lemma_clean_concat(p9, col);
    crate::chars::lemma_clean_concat(p10, pad2(t.second as int));
}

/// Append the width-two zero-padded decimal text of `n`.
fn push_pad2(out: &mut Vec<char>, n: u32)
    ensures
        final(out)@ == old(out)@ + pad2(n as int),
{
    if n < 10 {
        out.push('0');
    }
    let mut d = format_u32(n);
    out.append(&mut d);
    proof {
        assert(final(out)@ =~= old(out)@ + pad2(n as int));
    }
}

/// The canonical `YYYY-MM-DD HH:MM:SS` text of a timestamp.
pub fn format_timestamp(t: &Timestamp) -> (out: Vec<char>)
    ensures
        out@ == render_ts(*t),
{
    let mut out: Vec<char> = Vec::new();
    if t.year >= 0 && t.year <= 9999 {
        let y = t.year as u32;
        if y < 10 {
            out.push('0');
            out.push('0');
            out.push('0');
        } else if y < 100 {
            out.push('0');
            out.push('0');
        } else if y < 1000 {
            out.push('0');
        }
        let mut d = format_u32(y);
        out.append(&mut d);
    } else {
        let mut d = format_i32(t.year);
        out.append(&mut d);
    }
    proof {
        assert(out@ =~= year_chars(t.year as int));
    }
    out.push('-');
    push_pad2(&mut out, t.month);
    out.push('-');
    push_pad2(&mut out, t.day);
    out.push(' ');
    push_pad2(&mut out, t.hour);
    out.push(':');
    push_pad2(&mut out, t.minute);
    out.push(':');
    push_pad2(&mut out, t.second);
    proof {
        assert(out@ =~= render_ts(*t));
    }
    out
}

/// What `chrono::NaiveDateTime::parse_from_str` with format
/// `%Y-%m-%d %H:%M:%S` reads out of a text: a pure function of the text.
pub uninterp spec fn chrono_datetime_of(s: Seq<char>) -> Option<Timestamp>;

/// Relies on `chrono::NaiveDateTime::parse_from_str` with the fixed format
/// `%Y-%m-%d %H:%M:%S`, together with chrono's `Datelike` and `Timelike`
/// accessors, to read a timestamp out of a text. The parse is a function of
/// the text alone, here named `chrono_datetime_of`. chrono's strftime
/// documentation further promises that the zero-padded text of a valid
/// proleptic Gregorian calendar date-time with a year between 0 and 9999
/// parses successfully to exactly the written fields; `render_ts` writes
/// exactly such texts for timestamps satisfying `valid_calendar`.
#[verifier::external_body]
pub fn parse_timestamp(s: &Vec<char>) -> (r: Option<Timestamp>)
    ensures
        r == chrono_datetime_of(s@),
        forall|t: Timestamp| valid_calendar(t) && s@ == render_ts(t) ==> r == Some(t),
{
    let text: String = s.iter().collect();
    match chrono::NaiveDateTime::parse_from_str(&text, "%Y-%m-%d %H:%M:%S") {
        Ok(dt) => Some(
            Timestamp {
                year: chrono::Datelike::year(&dt),
                month: chrono::Datelike::month(&dt),
                day: chrono::Datelike::day(&dt),
                hour: chrono::Timelike::hour(&dt),
                minute: chrono::Timelike::minute(&dt),
                second: chrono::Timelike::second(&dt),
            },
        ),
        Err(_) => None,
    }
}

} // verus!

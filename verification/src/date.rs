//! Calendar dates and second-resolution timestamps, with Gregorian
//! validity rules, ordering, and the fixed-width "YYYY-MM-DD" and
//! "YYYY-MM-DDTHH:MM:SS" renderings used by the storage format.

use vstd::prelude::*;
use vstd::string::*;

use crate::text::{
    all_digits, dec_val, lemma_dec_val_bound, lemma_dec_val_nonneg, lemma_pad2_val,
    lemma_pad4_val, pad2_digits, pad4_digits, parse_u32, pow10, push_pad2, push_pad4,
};

verus! {

/// A calendar date, restricted to years 1..=9999 so that every valid
/// date renders as exactly ten characters.
#[derive(Clone, Copy, PartialEq, Eq, Structural, Debug, Hash)]
pub struct Date {
    pub year: u32,
    pub month: u32,
    pub day: u32,
}

pub open spec fn is_leap_year(y: int) -> bool {
    y % 4 == 0 && (y % 100 != 0 || y % 400 == 0)
}

pub open spec fn days_in_month(y: int, m: int) -> int {
    if m == 2 {
        if is_leap_year(y) {
            29
        } else {
            28
        }
    } else if m == 4 || m == 6 || m == 9 || m == 11 {
        30
    } else {
        31
    }
}

pub open spec fn valid_ymd(y: int, m: int, d: int) -> bool {
    &&& 1 <= y <= 9999
    &&& 1 <= m <= 12
    &&& 1 <= d <= days_in_month(y, m)
}

impl Date {
    pub open spec fn wf(self) -> bool {
        valid_ymd(self.year as int, self.month as int, self.day as int)
    }

    /// Builds a date after checking Gregorian validity.
    pub fn from_ymd(year: u32, month: u32, day: u32) -> (r: Option<Date>)
        ensures
            valid_ymd(year as int, month as int, day as int) ==> r == Some(
                Date { year, month, day },
            ),
            !valid_ymd(year as int, month as int, day as int) ==> r is None,
    {
        if 1 <= year && year <= 9999 && 1 <= month && month <= 12 && 1 <= day && day
            <= days_in_month_of(year, month) {
            Some(Date { year, month, day })
        } else {
            None
        }
    }

    /// Chronological order on dates.
    pub open spec fn le_spec(self, other: Date) -> bool {
        if self.year != other.year {
            self.year < other.year
        } else if self.month != other.month {
            self.month < other.month
        } else {
            self.day <= other.day
        }
    }

    pub fn le(&self, other: &Date) -> (r: bool)
        ensures
            r == self.le_spec(*other),
    {
        if self.year != other.year {
            self.year < other.year
        } else if self.month != other.month {
            self.month < other.month
        } else {
            self.day <= other.day
        }
    }

    /// The same calendar day in another year, when that day exists there;
    /// the only gap is February 29 in a non-leap year.
    pub fn with_year(&self, year: u32) -> (r: Option<Date>)
        requires
            self.wf(),
        ensures
            valid_ymd(year as int, self.month as int, self.day as int) ==> r == Some(
                Date { year, month: self.month, day: self.day },
            ),
            !valid_ymd(year as int, self.month as int, self.day as int) ==> r is None,
    {
        Date::from_ymd(year, self.month, self.day)
    }

    /// The fixed-width rendering "YYYY-MM-DD".
    pub open spec fn digits(self) -> Seq<char> {
        pad4_digits(self.year as nat) + seq!['-'] + pad2_digits(self.month as nat) + seq!['-']
            + pad2_digits(self.day as nat)
    }

    /// Appends the rendering of a valid date.
    pub fn push_onto(&self, s: &mut String)
        requires
            self.wf(),
        ensures
            final(s)@ == old(s)@ + self.digits(),
    {
        push_pad4(s, self.year);
        s.append("-");
        push_pad2(s, self.month);
        s.append("-");
        push_pad2(s, self.day);
        proof {
            reveal_strlit("-");
            assert(s@ =~= old(s)@ + self.digits());
        }
    }

    pub fn to_text(&self) -> (r: String)
        requires
            self.wf(),
        ensures
            r@ == self.digits(),
    {
        let mut s = String::new();
        self.push_onto(&mut s);
        proof {
            assert(s@ =~= self.digits());
        }
        s
    }
}

/// The chronological order is total: of any two dates, one precedes.
pub proof fn lemma_date_le_total(a: Date, b: Date)
    ensures
        a.le_spec(b) || b.le_spec(a),
{
}

/// The chronological order is transitive.
pub proof fn lemma_date_le_trans(a: Date, b: Date, c: Date)
    requires
        a.le_spec(b),
        b.le_spec(c),
    ensures
        a.le_spec(c),
{
}

pub fn leap_year(y: u32) -> (r: bool)
    ensures
        r == is_leap_year(y as int),
{
    y % 4 == 0 && (y % 100 != 0 || y % 400 == 0)
}

pub fn days_in_month_of(y: u32, m: u32) -> (r: u32)
    ensures
        r == days_in_month(y as int, m as int),
{
    if m == 2 {
        if leap_year(y) {
            29
        } else {
            28
        }
    } else if m == 4 || m == 6 || m == 9 || m == 11 {
        30
    } else {
        31
    }
}

/// Parses "YYYY-MM-DD"; `None` unless the shape is exact and the date is
/// a valid Gregorian date in years 1..=9999.
pub open spec fn parse_date_spec(s: Seq<char>) -> Option<Date> {
    if s.len() != 10 {
        None
    } else {
        let ys = s.subrange(0, 4);
        let ms = s.subrange(5, 7);
        let ds = s.subrange(8, 10);
        if s[4] == '-' && s[7] == '-' && all_digits(ys) && all_digits(ms) && all_digits(ds) {
            let y = dec_val(ys);
            let m = dec_val(ms);
            let d = dec_val(ds);
            if valid_ymd(y, m, d) {
                Some(Date { year: y as u32, month: m as u32, day: d as u32 })
            } else {
                None
            }
        } else {
            None
        }
    }
}

pub fn parse_date(s: &str) -> (r: Option<Date>)
    ensures
        r == parse_date_spec(s@),
        r is Some ==> r.unwrap().wf(),
{
    let n = s.unicode_len();
    if n != 10 {
        return None;
    }
    if s.get_char(4) != '-' || s.get_char(7) != '-' {
        return None;
    }
    let ys = s.substring_char(0, 4);
    let ms = s.substring_char(5, 7);
    let ds = s.substring_char(8, 10);
    assert(ys@ =~= s@.subrange(0, 4));
    assert(ms@ =~= s@.subrange(5, 7));
    assert(ds@ =~= s@.subrange(8, 10));
    let y = match parse_u32(ys) {
        Some(y) => y,
        None => {
            proof {
                if all_digits(s@.subrange(0, 4)) {
                    lemma_small_digits_fit(s@.subrange(0, 4));
                }
            }
            return None;
        },
    };
    let m = match parse_u32(ms) {
        Some(m) => m,
        None => {
            proof {
                if all_digits(s@.subrange(5, 7)) {
                    lemma_small_digits_fit(s@.subrange(5, 7));
                }
            }
            return None;
        },
    };
    let d = match parse_u32(ds) {
        Some(d) => d,
        None => {
            proof {
                if all_digits(s@.subrange(8, 10)) {
                    lemma_small_digits_fit(s@.subrange(8, 10));
                }
            }
            return None;
        },
    };
    proof {
        lemma_dec_val_nonneg(s@.subrange(0, 4));
        lemma_dec_val_nonneg(s@.subrange(5, 7));
        lemma_dec_val_nonneg(s@.subrange(8, 10));
    }
    Date::from_ymd(y, m, d)
}

/// A digit string of at most four digits always fits in `u32`.
proof fn lemma_small_digits_fit(s: Seq<char>)
    requires
        all_digits(s),
        s.len() <= 4,
    ensures
        0 <= dec_val(s) <= 9999,
{
    lemma_dec_val_bound(s);
    assert(pow10(0) == 1);
    assert(pow10(1) == 10);
    assert(pow10(2) == 100);
    assert(pow10(3) == 1000);
    assert(pow10(4) == 10000);
}

/// Formatting then parsing returns the same valid date.
pub proof fn lemma_date_round_trip(dt: Date)
    requires
        dt.wf(),
    ensures
        parse_date_spec(dt.digits()) == Some(dt),
{
    let s = dt.digits();
    lemma_pad4_val(dt.year as nat);
    lemma_pad2_val(dt.month as nat);
    lemma_pad2_val(dt.day as nat);
    assert(s.len() == 10);
    assert(s.subrange(0, 4) =~= pad4_digits(dt.year as nat));
    assert(s[4] == '-');
    assert(s.subrange(5, 7) =~= pad2_digits(dt.month as nat));
    assert(s[7] == '-');
    assert(s.subrange(8, 10) =~= pad2_digits(dt.day as nat));
}

/// A date together with a wall-clock time of day.
#[derive(Clone, Copy, PartialEq, Eq, Structural, Debug)]
pub struct Timestamp {
    pub date: Date,
    pub hour: u32,
    pub minute: u32,
    pub second: u32,
}

impl Timestamp {
    pub open spec fn wf(self) -> bool {
        self.date.wf() && self.hour <= 23 && self.minute <= 59 && self.second <= 59
    }

    /// The fixed-width rendering "YYYY-MM-DDTHH:MM:SS".
    pub open spec fn digits(self) -> Seq<char> {
        self.date.digits() + seq!['T'] + pad2_digits(self.hour as nat) + seq![':'] + pad2_digits(
            self.minute as nat,
        ) + seq![':'] + pad2_digits(self.second as nat)
    }

    pub fn push_onto(&self, s: &mut String)
        requires
            self.wf(),
        ensures
            final(s)@ == old(s)@ + self.digits(),
    {
        self.date.push_onto(s);
        s.append("T");
        push_pad2(s, self.hour);
        s.append(":");
        push_pad2(s, self.minute);
        s.append(":");
        push_pad2(s, self.second);
        proof {
            reveal_strlit("T");
            reveal_strlit(":");
            assert(s@ =~= old(s)@ + self.digits());
        }
    }

    pub fn to_text(&self) -> (r: String)
        requires
            self.wf(),
        ensures
            r@ == self.digits(),
    {
        let mut s = String::new();
        self.push_onto(&mut s);
        proof {
            assert(s@ =~= self.digits());
        }
        s
    }
}

/// Parses "YYYY-MM-DDTHH:MM:SS" with full validity checks.
pub open spec fn parse_timestamp_spec(s: Seq<char>) -> Option<Timestamp> {
    if s.len() != 19 {
        None
    } else {
        let hs = s.subrange(11, 13);
        let ms = s.subrange(14, 16);
        let ss = s.subrange(17, 19);
        match parse_date_spec(s.subrange(0, 10)) {
            Some(date) => {
                if s[10] == 'T' && s[13] == ':' && s[16] == ':' && all_digits(hs) && all_digits(ms)
                    && all_digits(ss) {
                    let h = dec_val(hs);
                    let mi = dec_val(ms);
                    let sec = dec_val(ss);
                    if h <= 23 && mi <= 59 && sec <= 59 {
                        Some(
                            Timestamp {
                                date,
                                hour: h as u32,
                                minute: mi as u32,
                                second: sec as u32,
                            },
                        )
                    } else {
                        None
                    }
                } else {
                    None
                }
            },
            None => None,
        }
    }
}

pub fn parse_timestamp(s: &str) -> (r: Option<Timestamp>)
    ensures
        r == parse_timestamp_spec(s@),
        r is Some ==> r.unwrap().wf(),
{
    let n = s.unicode_len();
    if n != 19 {
        return None;
    }
    let date_part = s.substring_char(0, 10);
    assert(date_part@ =~= s@.subrange(0, 10));
    let date = match parse_date(date_part) {
        Some(date) => date,
        None => {
            return None;
        },
    };
    if s.get_char(10) != 'T' || s.get_char(13) != ':' || s.get_char(16) != ':' {
        return None;
    }
    let hs = s.substring_char(11, 13);
    let ms = s.substring_char(14, 16);
    let ss = s.substring_char(17, 19);
    assert(hs@ =~= s@.subrange(11, 13));
    assert(ms@ =~= s@.subrange(14, 16));
    assert(ss@ =~= s@.subrange(17, 19));
    let h = match parse_u32(hs) {
        Some(h) => h,
        None => {
            proof {
                if all_digits(s@.subrange(11, 13)) {
                    lemma_small_digits_fit(s@.subrange(11, 13));
                }
            }
            return None;
        },
    };
    let mi = match parse_u32(ms) {
        Some(mi) => mi,
        None => {
            proof {
                if all_digits(s@.subrange(14, 16)) {
                    lemma_small_digits_fit(s@.subrange(14, 16));
                }
            }
            return None;
        },
    };
    let sec = match parse_u32(ss) {
        Some(sec) => sec,
        None => {
            proof {
                if all_digits(s@.subrange(17, 19)) {
                    lemma_small_digits_fit(s@.subrange(17, 19));
                }
            }
            return None;
        },
    };
    proof {
        lemma_dec_val_nonneg(s@.subrange(11, 13));
        lemma_dec_val_nonneg(s@.subrange(14, 16));
        lemma_dec_val_nonneg(s@.subrange(17, 19));
    }
    if h <= 23 && mi <= 59 && sec <= 59 {
        Some(Timestamp { date, hour: h, minute: mi, second: sec })
    } else {
        None
    }
}

/// Formatting then parsing returns the same valid timestamp.
pub proof fn lemma_timestamp_round_trip(t: Timestamp)
    requires
        t.wf(),
    ensures
        parse_timestamp_spec(t.digits()) == Some(t),
{
    let s = t.digits();
    lemma_pad4_val(t.date.year as nat);
    lemma_pad2_val(t.date.month as nat);
    lemma_pad2_val(t.date.day as nat);
    lemma_pad2_val(t.hour as nat);
    lemma_pad2_val(t.minute as nat);
    lemma_pad2_val(t.second as nat);
    assert(s.len() == 19);
    assert(s.subrange(0, 10) =~= t.date.digits());
    lemma_date_round_trip(t.date);
    assert(s[10] == 'T');
    assert(s.subrange(11, 13) =~= pad2_digits(t.hour as nat));
    assert(s[13] == ':');
    assert(s.subrange(14, 16) =~= pad2_digits(t.minute as nat));
    assert(s[16] == ':');
    assert(s.subrange(17, 19) =~= pad2_digits(t.second as nat));
}

} // verus!

use vstd::prelude::*;
use vstd::string::*;
use crate::text::{i64_text, int_text, nat_text, push_char, u64_text};

verus! {

/// A moment broken down into calendar fields (as the C library's
/// `struct tm` gives them, with the year in full and the month from 1).
pub struct CivilTime {
    pub year: i64,
    pub month: u8,
    pub day: u8,
    pub hour: u8,
    pub minute: u8,
    pub second: u8,
    /// Days since Sunday.
    pub weekday: u8,
}

/// `n` written with at least `w` digits, zeros in front.
pub open spec fn zero_padded(n: nat, w: nat) -> Seq<char> {
    let d = nat_text(n);
    if d.len() < w {
        Seq::new((w - d.len()) as nat, |i: int| '0') + d
    } else {
        d
    }
}

/// An integer as `{:0w$}` writes it: the sign counts toward the width.
pub open spec fn padded_int(i: int, w: nat) -> Seq<char> {
    if i < 0 {
        seq!['-'] + zero_padded((-i) as nat, if w > 0 { (w - 1) as nat } else { 0 })
    } else {
        zero_padded(i as nat, w)
    }
}

fn zero_pad(n: u64, w: usize) -> (r: String)
    ensures
        r@ == zero_padded(n as nat, w as nat),
{
    let d = u64_text(n);
    let len = d.unicode_len();
    let mut r = String::new();
    if len < w {
        let mut k: usize = 0;
        while k < w - len
            invariant
                len < w,
                k <= w - len,
                r@ == Seq::new(k as nat, |i: int| '0'),
            decreases w - len - k,
        {
            push_char(&mut r, '0');
            assert(r@ =~= Seq::new((k + 1) as nat, |i: int| '0'));
            k += 1;
        }
    }
    r.append(d.as_str());
    assert(r@ =~= zero_padded(n as nat, w as nat));
    r
}

fn padded(i: i64, w: usize) -> (r: String)
    ensures
        r@ == padded_int(i as int, w as nat),
{
    if i < 0 {
        let mag: u64 = if i == i64::MIN {
            0x8000_0000_0000_0000u64
        } else {
            (-i) as u64
        };
        let mut r = String::new();
        push_char(&mut r, '-');
        let d = zero_pad(
            mag,
            if w > 0 {
                w - 1
            } else {
                0
            },
        );
        r.append(d.as_str());
        r
    } else {
        zero_pad(i as u64, w)
    }
}

/// The C locale's abbreviated weekday names, from Sunday (`?` out of range).
pub open spec fn weekday_name(d: int) -> Seq<char> {
    if d == 0 {
        "Sun"@
    } else if d == 1 {
        "Mon"@
    } else if d == 2 {
        "Tue"@
    } else if d == 3 {
        "Wed"@
    } else if d == 4 {
        "Thu"@
    } else if d == 5 {
        "Fri"@
    } else if d == 6 {
        "Sat"@
    } else {
        "?"@
    }
}

/// The C locale's abbreviated month names, from January as 1 (`?` out of
/// range).
pub open spec fn month_name(m: int) -> Seq<char> {
    if m == 1 {
        "Jan"@
    } else if m == 2 {
        "Feb"@
    } else if m == 3 {
        "Mar"@
    } else if m == 4 {
        "Apr"@
    } else if m == 5 {
        "May"@
    } else if m == 6 {
        "Jun"@
    } else if m == 7 {
        "Jul"@
    } else if m == 8 {
        "Aug"@
    } else if m == 9 {
        "Sep"@
    } else if m == 10 {
        "Oct"@
    } else if m == 11 {
        "Nov"@
    } else if m == 12 {
        "Dec"@
    } else {
        "?"@
    }
}

fn weekday_text(d: u8) -> (r: &'static str)
    ensures
        r@ == weekday_name(d as int),
{
    if d == 0 {
        "Sun"
    } else if d == 1 {
        "Mon"
    } else if d == 2 {
        "Tue"
    } else if d == 3 {
        "Wed"
    } else if d == 4 {
        "Thu"
    } else if d == 5 {
        "Fri"
    } else if d == 6 {
        "Sat"
    } else {
        "?"
    }
}

fn month_text(m: u8) -> (r: &'static str)
    ensures
        r@ == month_name(m as int),
{
    if m == 1 {
        "Jan"
    } else if m == 2 {
        "Feb"
    } else if m == 3 {
        "Mar"
    } else if m == 4 {
        "Apr"
    } else if m == 5 {
        "May"
    } else if m == 6 {
        "Jun"
    } else if m == 7 {
        "Jul"
    } else if m == 8 {
        "Aug"
    } else if m == 9 {
        "Sep"
    } else if m == 10 {
        "Oct"
    } else if m == 11 {
        "Nov"
    } else if m == 12 {
        "Dec"
    } else {
        "?"
    }
}

/// How PlistBuddy shows a date in local time: `%a %b %d %H:%M:%S `, the
/// standard (non-daylight) zone abbreviation, a space and the year.
pub open spec fn date_display(t: CivilTime, zone: Seq<char>) -> Seq<char> {
    weekday_name(t.weekday as int) + " "@ + month_name(t.month as int) + " "@ + zero_padded(
        t.day as nat,
        2,
    ) + " "@ + zero_padded(t.hour as nat, 2) + ":"@ + zero_padded(t.minute as nat, 2) + ":"@
        + zero_padded(t.second as nat, 2) + " "@ + zone + " "@ + int_text(t.year as int)
}

/// A date as PlistBuddy shows it (see `date_display`); the caller breaks
/// the moment down in local time and names the zone.
pub fn format_date(t: &CivilTime, zone: &str) -> (r: String)
    ensures
        r@ == date_display(*t, zone@),
{
    let mut r = String::from_str(weekday_text(t.weekday));
    r.append(" ");
    r.append(month_text(t.month));
    r.append(" ");
    let d = zero_pad(t.day as u64, 2);
    r.append(d.as_str());
    r.append(" ");
    let h = zero_pad(t.hour as u64, 2);
    r.append(h.as_str());
    r.append(":");
    let m = zero_pad(t.minute as u64, 2);
    r.append(m.as_str());
    r.append(":");
    let s = zero_pad(t.second as u64, 2);
    r.append(s.as_str());
    r.append(" ");
    r.append(zone);
    r.append(" ");
    let y = i64_text(t.year);
    r.append(y.as_str());
    r
}

/// The fields of a moment in UTC as `YYYY-MM-DD`, `sep`, `HH:MM:SS`, each
/// number zero-padded (the year to four places).
pub open spec fn utc_stamp(t: CivilTime, sep: Seq<char>) -> Seq<char> {
    padded_int(t.year as int, 4) + "-"@ + zero_padded(t.month as nat, 2) + "-"@ + zero_padded(
        t.day as nat,
        2,
    ) + sep + zero_padded(t.hour as nat, 2) + ":"@ + zero_padded(t.minute as nat, 2) + ":"@
        + zero_padded(t.second as nat, 2)
}

/// `YYYY-MM-DD<sep>HH:MM:SS` for a moment broken down in UTC.
pub fn format_utc_stamp(t: &CivilTime, sep: &str) -> (r: String)
    ensures
        r@ == utc_stamp(*t, sep@),
{
    let mut r = padded(t.year, 4);
    r.append("-");
    let mo = zero_pad(t.month as u64, 2);
    r.append(mo.as_str());
    r.append("-");
    let d = zero_pad(t.day as u64, 2);
    r.append(d.as_str());
    r.append(sep);
    let h = zero_pad(t.hour as u64, 2);
    r.append(h.as_str());
    r.append(":");
    let m = zero_pad(t.minute as u64, 2);
    r.append(m.as_str());
    r.append(":");
    let s = zero_pad(t.second as u64, 2);
    r.append(s.as_str());
    r
}

} // verus!

//! Calendar dates and the two fixed formats the book uses: a long form
//! for the title page (space-padded day, full month name, four-digit
//! year) and a short form for the output filename (space-padded day,
//! abbreviated month, two-digit year).

use vstd::prelude::*;
use crate::text::{chars_to_string, str_to_chars};

verus! {

/// A calendar date, held as plain numbers. The clock that supplies
/// "today" lives outside the library.
pub struct BookDate {
    pub year: u32,
    pub month: u8,
    pub day: u8,
}

impl BookDate {
    /// The ranges the formats rely on. Years before 1000 or after 9999
    /// would change the width of the year field.
    pub open spec fn wf(self) -> bool {
        &&& 1000 <= self.year <= 9999
        &&& 1 <= self.month <= 12
        &&& 1 <= self.day <= 31
    }
}

/// The character of one decimal digit.
pub open spec fn digit_char(d: int) -> char
    recommends
        0 <= d <= 9,
{
    if d == 0 {
        '0'
    } else if d == 1 {
        '1'
    } else if d == 2 {
        '2'
    } else if d == 3 {
        '3'
    } else if d == 4 {
        '4'
    } else if d == 5 {
        '5'
    } else if d == 6 {
        '6'
    } else if d == 7 {
        '7'
    } else if d == 8 {
        '8'
    } else {
        '9'
    }
}

/// The decimal digits of `n`, most significant first, no padding.
pub open spec fn dec_seq(n: int) -> Seq<char>
    recommends
        n >= 0,
    decreases n when 0 <= n
{
    if n < 10 {
        seq![digit_char(n)]
    } else {
        dec_seq(n / 10).push(digit_char(n % 10))
    }
}

/// A day of the month as `%e` writes it: two columns, space-padded.
pub open spec fn day_padded(d: int) -> Seq<char> {
    if d < 10 {
        seq![' '] + dec_seq(d)
    } else {
        dec_seq(d)
    }
}

/// A number under 100 in two columns, zero-padded.
pub open spec fn two_digits(n: int) -> Seq<char> {
    if n < 10 {
        seq!['0'] + dec_seq(n)
    } else {
        dec_seq(n)
    }
}

/// The full English name of a month.
pub open spec fn month_long(m: int) -> Seq<char>
    recommends
        1 <= m <= 12,
{
    if m == 1 {
        "January"@
    } else if m == 2 {
        "February"@
    } else if m == 3 {
        "March"@
    } else if m == 4 {
        "April"@
    } else if m == 5 {
        "May"@
    } else if m == 6 {
        "June"@
    } else if m == 7 {
        "July"@
    } else if m == 8 {
        "August"@
    } else if m == 9 {
        "September"@
    } else if m == 10 {
        "October"@
    } else if m == 11 {
        "November"@
    } else {
        "December"@
    }
}

/// The three-letter abbreviation of a month.
pub open spec fn month_short(m: int) -> Seq<char>
    recommends
        1 <= m <= 12,
{
    if m == 1 {
        "Jan"@
    } else if m == 2 {
        "Feb"@
    } else if m == 3 {
        "Mar"@
    } else if m == 4 {
        "Apr"@
    } else if m == 5 {
        "May"@
    } else if m == 6 {
        "Jun"@
    } else if m == 7 {
        "Jul"@
    } else if m == 8 {
        "Aug"@
    } else if m == 9 {
        "Sep"@
    } else if m == 10 {
        "Oct"@
    } else if m == 11 {
        "Nov"@
    } else {
        "Dec"@
    }
}

/// A date as `%e %B %Y` writes it.
pub open spec fn long_date(d: BookDate) -> Seq<char>
    recommends
        d.wf(),
{
    day_padded(d.day as int) + " "@ + month_long(d.month as int) + " "@ + dec_seq(d.year as int)
}

/// A date as `%e%b%y` writes it.
pub open spec fn short_date(d: BookDate) -> Seq<char>
    recommends
        d.wf(),
{
    day_padded(d.day as int) + month_short(d.month as int) + two_digits(d.year as int % 100)
}

/// Computes [`digit_char`].
fn digit_exec(d: u32) -> (c: char)
    requires
        d <= 9,
    ensures
        c == digit_char(d as int),
{
    if d == 0 {
        '0'
    } else if d == 1 {
        '1'
    } else if d == 2 {
        '2'
    } else if d == 3 {
        '3'
    } else if d == 4 {
        '4'
    } else if d == 5 {
        '5'
    } else if d == 6 {
        '6'
    } else if d == 7 {
        '7'
    } else if d == 8 {
        '8'
    } else {
        '9'
    }
}

/// Computes [`dec_seq`].
fn dec_chars(n: u32) -> (r: Vec<char>)
    ensures
        r@ == dec_seq(n as int),
    decreases n,
{
    if n < 10 {
        let mut r: Vec<char> = Vec::new();
        r.push(digit_exec(n));
        proof {
            assert(r@ =~= dec_seq(n as int));
        }
        r
    } else {
        let mut r = dec_chars(n / 10);
        r.push(digit_exec(n % 10));
        r
    }
}

/// The full month name.
fn month_long_exec(m: u8) -> (r: &'static str)
    requires
        1 <= m <= 12,
    ensures
        r@ == month_long(m as int),
{
    if m == 1 {
        "January"
    } else if m == 2 {
        "February"
    } else if m == 3 {
        "March"
    } else if m == 4 {
        "April"
    } else if m == 5 {
        "May"
    } else if m == 6 {
        "June"
    } else if m == 7 {
        "July"
    } else if m == 8 {
        "August"
    } else if m == 9 {
        "September"
    } else if m == 10 {
        "October"
    } else if m == 11 {
        "November"
    } else {
        "December"
    }
}

/// The month abbreviation.
fn month_short_exec(m: u8) -> (r: &'static str)
    requires
        1 <= m <= 12,
    ensures
        r@ == month_short(m as int),
{
    if m == 1 {
        "Jan"
    } else if m == 2 {
        "Feb"
    } else if m == 3 {
        "Mar"
    } else if m == 4 {
        "Apr"
    } else if m == 5 {
        "May"
    } else if m == 6 {
        "Jun"
    } else if m == 7 {
        "Jul"
    } else if m == 8 {
        "Aug"
    } else if m == 9 {
        "Sep"
    } else if m == 10 {
        "Oct"
    } else if m == 11 {
        "Nov"
    } else {
        "Dec"
    }
}

/// Writes the day of the month, space-padded to two columns.
fn push_day(v: &mut Vec<char>, day: u8)
    ensures
        final(v)@ == old(v)@ + day_padded(day as int),
{
    if day < 10 {
        v.push(' ');
        let mut d = dec_chars(day as u32);
        v.append(&mut d);
        proof {
            assert(old(v)@.push(' ') + dec_seq(day as int) =~= old(v)@ + (seq![' '] + dec_seq(
                day as int,
            )));
        }
    } else {
        let mut d = dec_chars(day as u32);
        v.append(&mut d);
    }
}

impl BookDate {
    /// The date as the title page shows it (`%e %B %Y`).
    pub fn format_long(&self) -> (r: String)
        requires
            self.wf(),
        ensures
            r@ == long_date(*self),
    {
        let mut v: Vec<char> = Vec::new();
        push_day(&mut v, self.day);
        v.push(' ');
        let mut mon = str_to_chars(month_long_exec(self.month));
        v.append(&mut mon);
        v.push(' ');
        let mut y = dec_chars(self.year);
        v.append(&mut y);
        proof {
            reveal_strlit(" ");
            assert(v@ =~= long_date(*self));
        }
        chars_to_string(&v)
    }

    /// The date as the output filename carries it (`%e%b%y`).
    pub fn format_short(&self) -> (r: String)
        requires
            self.wf(),
        ensures
            r@ == short_date(*self),
    {
        let mut v: Vec<char> = Vec::new();
        push_day(&mut v, self.day);
        let mut mon = str_to_chars(month_short_exec(self.month));
        v.append(&mut mon);
        let yy = self.year % 100;
        if yy < 10 {
            v.push('0');
        }
        let mut y = dec_chars(yy);
        v.append(&mut y);
        proof {
            assert(v@ =~= short_date(*self));
        }
        chars_to_string(&v)
    }
}

} // verus!

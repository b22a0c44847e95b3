//! The evaluator's timestamp: an instant (seconds since the Unix epoch) with
//! a fixed offset from UTC, as plain integers.  Civil-calendar arithmetic
//! (proleptic Gregorian) is implemented and verified here; values outside
//! the years 1 through 9999 are clamped for display and for the calendar
//! accessors.

use vstd::prelude::*;
use crate::number::{
    push_char, push_digits, push_zeros, sp_digits_seq, sp_ndigits, sp_zeros_seq,
};

verus! {

/// An instant with a fixed offset: the moment `secs` seconds after the Unix
/// epoch, displayed at `offset_secs` seconds east of UTC.
#[derive(Clone, Copy, PartialEq, Eq, Structural, Debug)]
pub struct Timestamp {
    pub secs: i64,
    pub offset_secs: i32,
}

/// Days from the epoch to 0001-01-01 and 9999-12-31: the clamping range of
/// the calendar accessors.
pub const DAY_MIN: i64 = -719162;

pub const DAY_MAX: i64 = 2932896;

pub open spec fn sp_is_leap(y: int) -> bool {
    y % 4 == 0 && (y % 100 != 0 || y % 400 == 0)
}

pub open spec fn sp_days_in_year(y: int) -> int {
    if sp_is_leap(y) {
        366
    } else {
        365
    }
}

/// Days in month `m` (1-based).
pub open spec fn sp_days_in_month(m: int, leap: bool) -> int {
    if m == 1 {
        31
    } else if m == 2 {
        if leap {
            29
        } else {
            28
        }
    } else if m == 3 {
        31
    } else if m == 4 {
        30
    } else if m == 5 {
        31
    } else if m == 6 {
        30
    } else if m == 7 {
        31
    } else if m == 8 {
        31
    } else if m == 9 {
        30
    } else if m == 10 {
        31
    } else if m == 11 {
        30
    } else {
        31
    }
}

/// Walks forward from year `y` while at least a full year of days remains,
/// stopping at year 9999.
pub open spec fn sp_year_up(y: int, d: int) -> (int, int)
    decreases d,
{
    if d < 0 || d < sp_days_in_year(y) || y >= 9_999 {
        (y, d)
    } else {
        sp_year_up(y + 1, d - sp_days_in_year(y))
    }
}

/// Walks backward from year `y` while the day count is negative, stopping
/// at year 1.
pub open spec fn sp_year_down(y: int, d: int) -> (int, int)
    decreases (if d < 0 {
        -d
    } else {
        0
    }),
{
    if d >= 0 {
        (y, d)
    } else if y <= 1 {
        (y, 0)
    } else {
        sp_year_down(y - 1, d + sp_days_in_year(y - 1))
    }
}

/// Finds the month of day-of-year `d` (0-based), returning the month and the
/// remaining 0-based day of the month.
pub open spec fn sp_month_find(m: int, d: int, leap: bool) -> (int, int)
    decreases 13 - m,
{
    if m >= 12 || d < sp_days_in_month(m, leap) {
        (m, d)
    } else {
        sp_month_find(m + 1, d - sp_days_in_month(m, leap), leap)
    }
}

/// The civil date `(year, month, day)` of the day `days0` days after
/// 1970-01-01, clamped into the years 1 through 9999.
pub open spec fn sp_civil_of_days(days0: int) -> (int, int, int) {
    let days = if days0 < DAY_MIN as int {
        DAY_MIN as int
    } else if days0 > DAY_MAX as int {
        DAY_MAX as int
    } else {
        days0
    };
    let yd = if days >= 0 {
        sp_year_up(1970, days)
    } else {
        sp_year_down(1970, days)
    };
    let md = sp_month_find(1, yd.1, sp_is_leap(yd.0));
    (yd.0, md.0, md.1 + 1)
}

fn days_in_year_x(y: i64) -> (r: i64)
    requires
        0 <= y <= 10_000,
    ensures
        r == sp_days_in_year(y as int),
{
    if y % 4 == 0 && (y % 100 != 0 || y % 400 == 0) {
        366
    } else {
        365
    }
}

fn days_in_month_x(m: i64, leap: bool) -> (r: i64)
    requires
        1 <= m <= 12,
    ensures
        r == sp_days_in_month(m as int, leap),
{
    if m == 1 {
        31
    } else if m == 2 {
        if leap {
            29
        } else {
            28
        }
    } else if m == 3 {
        31
    } else if m == 4 {
        30
    } else if m == 5 {
        31
    } else if m == 6 {
        30
    } else if m == 7 {
        31
    } else if m == 8 {
        31
    } else if m == 9 {
        30
    } else if m == 10 {
        31
    } else if m == 11 {
        30
    } else {
        31
    }
}

#[verifier::rlimit(50)]
fn year_up_x(y: i64, d: i64) -> (r: (i64, i64))
    requires
        1 <= y <= 9_999,
        0 <= d <= DAY_MAX,
    ensures
        (r.0 as int, r.1 as int) == sp_year_up(y as int, d as int),
        0 <= r.1 <= DAY_MAX,
        1 <= r.0 <= 9_999,
    decreases d,
{
    let diy = days_in_year_x(y);
    if d < diy || y >= 9_999 {
        (y, d)
    } else {
        year_up_x(y + 1, d - diy)
    }
}

#[verifier::rlimit(50)]
fn year_down_x(y: i64, d: i64) -> (r: (i64, i64))
    requires
        1 <= y <= 9_999,
        DAY_MIN <= d < 0,
    ensures
        (r.0 as int, r.1 as int) == sp_year_down(y as int, d as int),
        0 <= r.1 < 366,
        1 <= r.0 <= 9_999,
    decreases -d,
{
    if y <= 1 {
        proof {
            assert(sp_year_down(y as int, d as int) == (y as int, 0int));
        }
        (y, 0)
    } else {
        let diy = days_in_year_x(y - 1);
        let d2 = d + diy;
        proof {
            assert(sp_year_down(y as int, d as int) == sp_year_down(y as int - 1, d2 as int));
        }
        if d2 >= 0 {
            proof {
                assert(sp_year_down(y as int - 1, d2 as int) == (y as int - 1, d2 as int));
            }
            (y - 1, d2)
        } else {
            year_down_x(y - 1, d2)
        }
    }
}

fn month_find_x(m: i64, d: i64, leap: bool) -> (r: (i64, i64))
    requires
        1 <= m <= 12,
        0 <= d <= DAY_MAX,
    ensures
        (r.0 as int, r.1 as int) == sp_month_find(m as int, d as int, leap),
        1 <= r.0 <= 12,
        0 <= r.1 <= d,
    decreases 13 - m,
{
    if m >= 12 {
        (m, d)
    } else {
        let dim = days_in_month_x(m, leap);
        if d < dim {
            (m, d)
        } else {
            month_find_x(m + 1, d - dim, leap)
        }
    }
}

/// The civil date of a day number; total, clamped into years 1 through 9999.
#[verifier::rlimit(50)]
pub fn civil_of_days(days0: i64) -> (r: (i64, i64, i64))
    ensures
        (r.0 as int, r.1 as int, r.2 as int) == sp_civil_of_days(days0 as int),
        1 <= r.0 <= 9_999,
        1 <= r.1 <= 12,
        1 <= r.2,
{
    let days: i64 = if days0 < DAY_MIN {
        DAY_MIN
    } else if days0 > DAY_MAX {
        DAY_MAX
    } else {
        days0
    };
    let (y1, d1) = if days >= 0 {
        year_up_x(1970, days)
    } else {
        year_down_x(1970, days)
    };
    let leap = y1 % 4 == 0 && (y1 % 100 != 0 || y1 % 400 == 0);
    let (m2, d2) = month_find_x(1, d1, leap);
    (y1, m2, d2 + 1)
}

} // verus!

verus! {

/// Days from 1970-01-01 to the first day of year `y` (year clamped into 1
/// through 9999 by the callers).
pub open spec fn sp_days_before_year(y: int) -> int
    decreases (if y >= 1970 {
        y - 1970
    } else {
        1970 - y
    }),
{
    if y == 1970 {
        0
    } else if y > 1970 {
        sp_days_before_year(y - 1) + sp_days_in_year(y - 1)
    } else {
        sp_days_before_year(y + 1) - sp_days_in_year(y)
    }
}

/// Days in year before month `m` (1-based).
pub open spec fn sp_days_before_month(m: int, leap: bool) -> int
    decreases m,
{
    if m <= 1 {
        0
    } else {
        sp_days_before_month(m - 1, leap) + sp_days_in_month(m - 1, leap)
    }
}

/// The day number of the civil date `(y, m, d)` (inputs clamped into range).
pub open spec fn sp_days_of_civil(y0: int, m0: int, d0: int) -> int {
    let y = if y0 < 1 {
        1
    } else if y0 > 9_999 {
        9_999
    } else {
        y0
    };
    let m = if m0 < 1 {
        1
    } else if m0 > 12 {
        12
    } else {
        m0
    };
    let d = if d0 < 1 {
        1
    } else if d0 > 31 {
        31
    } else {
        d0
    };
    sp_days_before_year(y) + sp_days_before_month(m, sp_is_leap(y)) + d - 1
}

fn days_before_year_x(y: i64) -> (r: i64)
    requires
        1 <= y <= 9_999,
    ensures
        r == sp_days_before_year(y as int),
        -720_654 <= r <= 2_938_980,
    decreases (if y >= 1970 {
        y - 1970
    } else {
        1970 - y
    }),
{
    if y == 1970 {
        0
    } else if y > 1970 {
        let p = days_before_year_x(y - 1);
        let q = days_in_year_x(y - 1);
        proof {
            lemma_days_before_year_bounds(y as int);
        }
        p + q
    } else {
        let p = days_before_year_x(y + 1);
        let q = days_in_year_x(y);
        proof {
            lemma_days_before_year_bounds(y as int);
        }
        p - q
    }
}

/// The cumulative day count grows by at most 366 a year, so it stays within
/// the range spanned by years 1 and 10000.
proof fn lemma_days_before_year_bounds(y: int)
    requires
        1 <= y <= 10_000,
    ensures
        -720_654 <= sp_days_before_year(y) <= 2_938_980,
{
    lemma_days_linear(y);
    if y >= 1970 {
        assert((y - 1970) * 366 <= 8_030 * 366) by (nonlinear_arith)
            requires
                y <= 10_000,
        ;
        assert((y - 1970) * 365 >= 0) by (nonlinear_arith)
            requires
                y >= 1970,
        ;
    } else {
        assert((1970 - y) * 366 <= 1_969 * 366) by (nonlinear_arith)
            requires
                y >= 1,
        ;
        assert((1970 - y) * 365 >= 0) by (nonlinear_arith)
            requires
                y < 1970,
        ;
    }
}

/// `sp_days_before_year` is bracketed by 365 and 366 days a year.
proof fn lemma_days_linear(y: int)
    requires
        1 <= y <= 10_000,
    ensures
        y >= 1970 ==> (y - 1970) * 365 <= sp_days_before_year(y) <= (y - 1970) * 366,
        y < 1970 ==> (1970 - y) * 365 <= -sp_days_before_year(y) <= (1970 - y) * 366,
    decreases (if y >= 1970 {
        y - 1970
    } else {
        1970 - y
    }),
{
    if y == 1970 {
    } else if y > 1970 {
        lemma_days_linear(y - 1);
        assert((y - 1970) * 365 == (y - 1 - 1970) * 365 + 365) by (nonlinear_arith);
        assert((y - 1970) * 366 == (y - 1 - 1970) * 366 + 366) by (nonlinear_arith);
    } else {
        lemma_days_linear(y + 1);
        assert((1970 - y) * 365 == (1970 - (y + 1)) * 365 + 365) by (nonlinear_arith);
        assert((1970 - y) * 366 == (1970 - (y + 1)) * 366 + 366) by (nonlinear_arith);
    }
}

fn days_before_month_x(m: i64, leap: bool) -> (r: i64)
    requires
        1 <= m <= 12,
    ensures
        r == sp_days_before_month(m as int, leap),
        0 <= r <= 31 * (m - 1),
    decreases m,
{
    if m <= 1 {
        0
    } else {
        let p = days_before_month_x(m - 1, leap);
        let q = days_in_month_x(m - 1, leap);
        p + q
    }
}

/// The day number of a civil date; total, inputs clamped into range.
pub fn days_of_civil(y0: i64, m0: i64, d0: i64) -> (r: i64)
    ensures
        r == sp_days_of_civil(y0 as int, m0 as int, d0 as int),
        -721_000 <= r <= 2_940_000,
{
    let y: i64 = if y0 < 1 {
        1
    } else if y0 > 9_999 {
        9_999
    } else {
        y0
    };
    let m: i64 = if m0 < 1 {
        1
    } else if m0 > 12 {
        12
    } else {
        m0
    };
    let d: i64 = if d0 < 1 {
        1
    } else if d0 > 31 {
        31
    } else {
        d0
    };
    let leap = y % 4 == 0 && (y % 100 != 0 || y % 400 == 0);
    let a = days_before_year_x(y);
    let b = days_before_month_x(m, leap);
    a + b + d - 1
}

/// Floor division and remainder by 86400 (the remainder is the second of
/// the day).
pub open spec fn sp_divmod_day(x: int) -> (int, int) {
    (x / 86_400, x % 86_400)
}

fn divmod_day(x: i64) -> (r: (i64, i64))
    requires
        -0x4000_0000_0000_0000 <= x <= 0x4000_0000_0000_0000,
    ensures
        (r.0 as int, r.1 as int) == sp_divmod_day(x as int),
        0 <= r.1 < 86_400,
{
    if x >= 0 {
        let q = ((x as u64) / 86_400) as i64;
        let rm = ((x as u64) % 86_400) as i64;
        (q, rm)
    } else {
        let pos = (-x) as u64;
        let qp = ((pos + 86_399) / 86_400) as i64;
        let rm = x + qp * 86_400;
        proof {
            let xi = x as int;
            let p = pos as int;
            let q0 = p / 86_400;
            let r0 = p % 86_400;
            assert(p == 86_400 * q0 + r0 && 0 <= r0 < 86_400) by (nonlinear_arith)
                requires
                    p >= 0,
                    q0 == p / 86_400,
                    r0 == p % 86_400,
            ;
            assert(qp as int == (p + 86_399) / 86_400);
            if r0 == 0 {
                assert(qp as int == q0) by (nonlinear_arith)
                    requires
                        p == 86_400 * q0,
                        q0 >= 0,
                        qp as int == (p + 86_399) / 86_400,
                ;
            } else {
                assert(qp as int == q0 + 1) by (nonlinear_arith)
                    requires
                        p == 86_400 * q0 + r0,
                        0 < r0 < 86_400,
                        q0 >= 0,
                        qp as int == (p + 86_399) / 86_400,
                ;
            }
            assert(xi == 86_400 * (-(qp as int)) + (rm as int));
            assert(0 <= (rm as int) && (rm as int) < 86_400);
            assert(xi / 86_400 == -(qp as int) && xi % 86_400 == rm as int) by (nonlinear_arith)
                requires
                    xi == 86_400 * (-(qp as int)) + (rm as int),
                    0 <= (rm as int) && (rm as int) < 86_400,
            ;
        }
        (-qp, rm)
    }
}

} // verus!

verus! {

/// The local clock reading of the instant: seconds plus offset, clamped so
/// later day arithmetic stays in range.
pub open spec fn sp_local(t: Timestamp) -> int {
    let l = t.secs as int + t.offset_secs as int;
    if l < -0x4000_0000_0000_0000 {
        -0x4000_0000_0000_0000
    } else if l > 0x4000_0000_0000_0000 {
        0x4000_0000_0000_0000
    } else {
        l
    }
}

fn local_x(t: Timestamp) -> (r: i64)
    ensures
        r as int == sp_local(t),
        -0x4000_0000_0000_0000 <= r <= 0x4000_0000_0000_0000,
{
    let l: i128 = t.secs as i128 + t.offset_secs as i128;
    if l < -0x4000_0000_0000_0000i128 {
        -0x4000_0000_0000_0000i64
    } else if l > 0x4000_0000_0000_0000i128 {
        0x4000_0000_0000_0000i64
    } else {
        l as i64
    }
}

/// The civil date and time-of-day of the instant, at its own offset:
/// `(year, month, day, hour, minute, second)`.
pub open spec fn sp_civil_of_ts(t: Timestamp) -> (int, int, int, int, int, int) {
    let dm = sp_divmod_day(sp_local(t));
    let ymd = sp_civil_of_days(dm.0);
    (ymd.0, ymd.1, ymd.2, dm.1 / 3600, (dm.1 % 3600) / 60, dm.1 % 60)
}

pub fn civil_of_ts(t: Timestamp) -> (r: (i64, i64, i64, i64, i64, i64))
    ensures
        (r.0 as int, r.1 as int, r.2 as int, r.3 as int, r.4 as int, r.5 as int)
            == sp_civil_of_ts(t),
        1 <= r.0 <= 9_999,
        1 <= r.1 <= 12,
        1 <= r.2,
        0 <= r.3 < 24,
        0 <= r.4 < 60,
        0 <= r.5 < 60,
{
    let l = local_x(t);
    let (days, sod) = divmod_day(l);
    let (y, m, d) = civil_of_days(days);
    let sodu = sod as u64;
    (y, m, d, (sodu / 3600) as i64, ((sodu % 3600) / 60) as i64, (sodu % 60) as i64)
}

/// The number of whole days from `b` to `a` (the difference of the
/// instants, truncated toward zero).
pub open spec fn sp_days_between(a: Timestamp, b: Timestamp) -> int {
    let d = a.secs as int - b.secs as int;
    if d >= 0 {
        d / 86_400
    } else {
        -((-d) / 86_400)
    }
}

pub fn days_between(a: Timestamp, b: Timestamp) -> (r: i64)
    ensures
        r as int == sp_days_between(a, b),
{
    let d: i128 = a.secs as i128 - b.secs as i128;
    if d >= 0 {
        ((d as u128) / 86_400) as i64
    } else {
        -((((-d) as u128) / 86_400) as i64)
    }
}

/// The instant `n` days later, at the same offset; saturates at the `i64`
/// range of seconds.
pub open spec fn sp_add_days(t: Timestamp, n: int) -> Timestamp {
    let s = t.secs as int + n * 86_400;
    let c: i64 = if s < i64::MIN {
        i64::MIN
    } else if s > i64::MAX {
        i64::MAX
    } else {
        s as i64
    };
    Timestamp { secs: c, offset_secs: t.offset_secs }
}

pub fn add_days(t: Timestamp, n: i64) -> (r: Timestamp)
    ensures
        r == sp_add_days(t, n as int),
{
    let s: i128 = t.secs as i128 + (n as i128) * 86_400;
    let c: i64 = if s < i64::MIN as i128 {
        i64::MIN
    } else if s > i64::MAX as i128 {
        i64::MAX
    } else {
        s as i64
    };
    Timestamp { secs: c, offset_secs: t.offset_secs }
}

/// Order of the instants: negative, zero or positive as `a` is before, at
/// or after `b`.
pub open spec fn sp_cmp_ts(a: Timestamp, b: Timestamp) -> int {
    if a.secs < b.secs {
        -1
    } else if a.secs == b.secs {
        0
    } else {
        1
    }
}

pub fn cmp_ts(a: Timestamp, b: Timestamp) -> (r: i8)
    ensures
        r as int == sp_cmp_ts(a, b),
{
    if a.secs < b.secs {
        -1
    } else if a.secs == b.secs {
        0
    } else {
        1
    }
}

/// `n` in decimal, left-padded with zeros to at least `w` digits.
pub open spec fn sp_padded(n: nat, w: nat) -> Seq<char> {
    if sp_ndigits(n) < w {
        sp_zeros_seq((w - sp_ndigits(n)) as nat) + sp_digits_seq(n)
    } else {
        sp_digits_seq(n)
    }
}

fn push_padded(s: &mut String, n: u64, w: u32)
    requires
        w <= 9,
    ensures
        final(s)@ == old(s)@ + sp_padded(n as nat, w as nat),
{
    let d = crate::number::ndigits_u128(n as u128);
    if d < w {
        push_zeros(s, w - d);
        push_digits(s, n);
        proof {
            assert(s@ =~= old(s)@ + sp_padded(n as nat, w as nat));
        }
    } else {
        push_digits(s, n);
        proof {
            assert(s@ =~= old(s)@ + sp_padded(n as nat, w as nat));
        }
    }
}

/// The canonical rendering `YYYY-MM-DD HH:MM:SS +HH:MM` of the instant at
/// its own offset.
pub open spec fn sp_format_ts(t: Timestamp) -> Seq<char> {
    let c = sp_civil_of_ts(t);
    let off: int = if t.offset_secs < 0 {
        -(t.offset_secs as int)
    } else {
        t.offset_secs as int
    };
    let sign: Seq<char> = if t.offset_secs < 0 {
        seq!['-']
    } else {
        seq!['+']
    };
    sp_padded(c.0 as nat, 4) + seq!['-'] + sp_padded(c.1 as nat, 2) + seq!['-'] + sp_padded(
        c.2 as nat,
        2,
    ) + seq![' '] + sp_padded(c.3 as nat, 2) + seq![':'] + sp_padded(c.4 as nat, 2) + seq![':']
        + sp_padded(c.5 as nat, 2) + seq![' '] + sign + sp_padded((off / 3600) as nat, 2)
        + seq![':'] + sp_padded(((off % 3600) / 60) as nat, 2)
}

#[verifier::rlimit(100)]
pub fn format_ts(t: Timestamp) -> (r: String)
    ensures
        r@ == sp_format_ts(t),
{
    let (y, m, d, h, mi, sec) = civil_of_ts(t);
    let mut s = String::new();
    push_padded(&mut s, y as u64, 4);
    push_char(&mut s, '-');
    push_padded(&mut s, m as u64, 2);
    push_char(&mut s, '-');
    push_padded(&mut s, d as u64, 2);
    push_char(&mut s, ' ');
    push_padded(&mut s, h as u64, 2);
    push_char(&mut s, ':');
    push_padded(&mut s, mi as u64, 2);
    push_char(&mut s, ':');
    push_padded(&mut s, sec as u64, 2);
    push_char(&mut s, ' ');
    let offu: u64 = if t.offset_secs < 0 {
        push_char(&mut s, '-');
        (-(t.offset_secs as i64)) as u64
    } else {
        push_char(&mut s, '+');
        t.offset_secs as u64
    };
    push_padded(&mut s, offu / 3600, 2);
    push_char(&mut s, ':');
    push_padded(&mut s, (offu % 3600) / 60, 2);
    proof {
        assert(s@ =~= sp_format_ts(t));
    }
    s
}

impl Timestamp {
    /// The instant of the civil date `(y, m, d)` at time `(h, mi, s)` local
    /// to the offset `offset_secs`; out-of-range fields are clamped.
    pub fn from_civil(y: i64, m: i64, d: i64, h: i64, mi: i64, s: i64, offset_secs: i32) -> (r:
        Timestamp)
        ensures
            r == sp_ts_from_civil(
                y as int,
                m as int,
                d as int,
                h as int,
                mi as int,
                s as int,
                offset_secs,
            ),
    {
        let days = days_of_civil(y, m, d);
        let hh: i64 = if h < 0 {
            0
        } else if h > 23 {
            23
        } else {
            h
        };
        let mm: i64 = if mi < 0 {
            0
        } else if mi > 59 {
            59
        } else {
            mi
        };
        let ss: i64 = if s < 0 {
            0
        } else if s > 59 {
            59
        } else {
            s
        };
        proof {
            let yy: int = if (y as int) < 1 {
                1
            } else if (y as int) > 9_999 {
                9_999
            } else {
                y as int
            };
            lemma_days_before_year_bounds(yy);
        }
        Timestamp {
            secs: days * 86_400 + hh * 3600 + mm * 60 + ss - offset_secs as i64,
            offset_secs,
        }
    }
}

pub open spec fn sp_ts_from_civil(
    y: int,
    m: int,
    d: int,
    h: int,
    mi: int,
    s: int,
    offset_secs: i32,
) -> Timestamp {
    let days = sp_days_of_civil(y, m, d);
    let hh = if h < 0 {
        0
    } else if h > 23 {
        23
    } else {
        h
    };
    let mm = if mi < 0 {
        0
    } else if mi > 59 {
        59
    } else {
        mi
    };
    let ss = if s < 0 {
        0
    } else if s > 59 {
        59
    } else {
        s
    };
    Timestamp {
        secs: (days * 86_400 + hh * 3600 + mm * 60 + ss - offset_secs as int) as i64,
        offset_secs,
    }
}

} // verus!

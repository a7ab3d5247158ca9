//! The `last fetched` timestamp of the default-branch summary.
//!
//! The caller supplies a moment as whole seconds since the Unix epoch;
//! turning that into a Gregorian calendar date and rendering it as
//! `YYYY-MM-DD HH:MM:SS UTC` is plain arithmetic, proved here against
//! the calendar's defining recurrences.

use vstd::prelude::*;
use vstd::utf8::{valid_utf8, decode_utf8};
use crate::response::lossy_string;

verus! {

/// A Gregorian leap year: divisible by 4, except centuries not
/// divisible by 400.
pub open spec fn is_leap_year(y: int) -> bool {
    y % 4 == 0 && (y % 100 != 0 || y % 400 == 0)
}

pub open spec fn days_in_year(y: int) -> int {
    if is_leap_year(y) {
        366
    } else {
        365
    }
}

pub open spec fn days_in_month(y: int, m: int) -> int
    recommends
        1 <= m <= 12,
{
    if m == 2 {
        if is_leap_year(y) {
            29
        } else {
            28
        }
    } else if m == 4 || m == 6 || m == 9 || m == 11 {
        30
    } else {
        31
    }
}

/// Days from 1970-01-01 to the first day of year `y`.
pub open spec fn days_before_year(y: int) -> int
    decreases y - 1970,
{
    if y <= 1970 {
        0
    } else {
        days_before_year(y - 1) + days_in_year(y - 1)
    }
}

/// Days from the first day of year `y` to the first day of its month `m`.
pub open spec fn days_before_month(y: int, m: int) -> int
    decreases m,
{
    if m <= 1 {
        0
    } else {
        days_before_month(y, m - 1) + days_in_month(y, m - 1)
    }
}

/// `(y, m, d)` is the Gregorian civil date `days` days after 1970-01-01.
pub open spec fn is_civil_date(days: int, y: int, m: int, d: int) -> bool {
    &&& 1970 <= y
    &&& 1 <= m <= 12
    &&& 1 <= d <= days_in_month(y, m)
    &&& days_before_year(y) + days_before_month(y, m) + (d - 1) == days
}

/// The twelve months of a year account for exactly its days.
proof fn lemma_year_months(y: int)
    ensures
        days_before_month(y, 13) == days_in_year(y),
{
    reveal_with_fuel(days_before_month, 14);
}

/// A year holds at least 365 days, so `days_before_year` grows at
/// least that fast.
proof fn lemma_days_before_year_lower(y: int)
    requires
        y >= 1970,
    ensures
        days_before_year(y) >= 365 * (y - 1970),
    decreases y - 1970,
{
    if y > 1970 {
        lemma_days_before_year_lower(y - 1);
    }
}

proof fn lemma_days_before_month_mono(y: int, m1: int, m2: int)
    requires
        1 <= m1 <= m2 <= 13,
    ensures
        days_before_month(y, m1) <= days_before_month(y, m2),
    decreases m2 - m1,
{
    if m1 < m2 {
        lemma_days_before_month_mono(y, m1, m2 - 1);
        assert(days_in_month(y, m2 - 1) >= 28);
    }
}

/// A valid month and day land strictly inside the year's day count.
proof fn lemma_date_within_year(y: int, m: int, d: int)
    requires
        1 <= m <= 12,
        1 <= d <= days_in_month(y, m),
    ensures
        0 <= days_before_month(y, m) + (d - 1) < days_in_year(y),
{
    lemma_days_before_month_mono(y, 1, m);
    assert(days_before_month(y, m + 1) == days_before_month(y, m) + days_in_month(y, m));
    lemma_days_before_month_mono(y, m + 1, 13);
    lemma_year_months(y);
}

/// A day count names at most one civil date.
proof fn lemma_civil_date_unique(days: int, a: (int, int, int), b: (int, int, int))
    requires
        is_civil_date(days, a.0, a.1, a.2),
        is_civil_date(days, b.0, b.1, b.2),
    ensures
        a == b,
{
    lemma_date_within_year(a.0, a.1, a.2);
    lemma_date_within_year(b.0, b.1, b.2);
    if a.0 < b.0 {
        assert(days_before_year(a.0 + 1) == days_before_year(a.0) + days_in_year(a.0));
        lemma_days_before_year_mono(a.0 + 1, b.0);
        assert(false);
    }
    if b.0 < a.0 {
        assert(days_before_year(b.0 + 1) == days_before_year(b.0) + days_in_year(b.0));
        lemma_days_before_year_mono(b.0 + 1, a.0);
        assert(false);
    }
    let y = a.0;
    if a.1 < b.1 {
        assert(days_before_month(y, a.1 + 1) == days_before_month(y, a.1) + days_in_month(
            y,
            a.1,
        ));
        lemma_days_before_month_mono(y, a.1 + 1, b.1);
        assert(false);
    }
    if b.1 < a.1 {
        assert(days_before_month(y, b.1 + 1) == days_before_month(y, b.1) + days_in_month(
            y,
            b.1,
        ));
        lemma_days_before_month_mono(y, b.1 + 1, a.1);
        assert(false);
    }
}

proof fn lemma_days_before_year_mono(y1: int, y2: int)
    requires
        1970 <= y1 <= y2,
    ensures
        days_before_year(y1) <= days_before_year(y2),
    decreases y2 - y1,
{
    if y1 < y2 {
        lemma_days_before_year_mono(y1, y2 - 1);
        assert(days_in_year(y2 - 1) >= 365);
    }
}

/// A moment in civil (proleptic Gregorian, UTC) time.
#[derive(Debug, Clone, Copy, PartialEq, Eq, Structural)]
pub struct CivilTime {
    pub year: u64,
    pub month: u64,
    pub day: u64,
    pub hour: u64,
    pub minute: u64,
    pub second: u64,
}

fn is_leap_exec(y: u64) -> (r: bool)
    ensures
        r == is_leap_year(y as int),
{
    y % 4 == 0 && (y % 100 != 0 || y % 400 == 0)
}

fn days_in_year_exec(y: u64) -> (r: u64)
    ensures
        r == days_in_year(y as int),
{
    if is_leap_exec(y) {
        366
    } else {
        365
    }
}

fn days_in_month_exec(y: u64, m: u64) -> (r: u64)
    requires
        1 <= m <= 12,
    ensures
        r == days_in_month(y as int, m as int),
{
    if m == 2 {
        if is_leap_exec(y) {
            29
        } else {
            28
        }
    } else if m == 4 || m == 6 || m == 9 || m == 11 {
        30
    } else {
        31
    }
}

/// The civil time `secs` seconds after 1970-01-01 00:00:00 UTC.
pub fn civil_time_of(secs: u64) -> (r: CivilTime)
    ensures
        is_civil_date(secs as int / 86400, r.year as int, r.month as int, r.day as int),
        r.hour == (secs as int % 86400) / 3600,
        r.minute == ((secs as int % 86400) % 3600) / 60,
        r.second == ((secs as int % 86400) % 3600) % 60,
        r.hour < 24 && r.minute < 60 && r.second < 60,
        r.hour * 3600 + r.minute * 60 + r.second == secs as int % 86400,
{
    let days: u64 = secs / 86400;
    let tod: u64 = secs % 86400;
    let hour: u64 = tod / 3600;
    let rem: u64 = tod % 3600;
    let minute: u64 = rem / 60;
    let second: u64 = rem % 60;
    proof {
        assert(tod < 86400);
        assert(hour < 24) by (nonlinear_arith)
            requires
                tod < 86400,
                hour == tod as int / 3600,
        ;
        vstd::arithmetic::div_mod::lemma_fundamental_div_mod(tod as int, 3600);
        vstd::arithmetic::div_mod::lemma_fundamental_div_mod(rem as int, 60);
    }
    let mut y: u64 = 1970;
    let mut rem_days: u64 = days;
    loop
        invariant
            1970 <= y,
            days_before_year(y as int) + rem_days == days,
        ensures
            1970 <= y,
            days_before_year(y as int) + rem_days == days,
            rem_days < days_in_year(y as int),
        decreases rem_days,
    {
        let len = days_in_year_exec(y);
        if rem_days < len {
            break;
        }
        proof {
            lemma_days_before_year_lower(y as int);
            assert(365 * (y as int - 1970) <= u64::MAX);
            assert(y as int - 1970 <= u64::MAX as int / 365) by (nonlinear_arith)
                requires
                    365 * (y as int - 1970) <= u64::MAX,
            ;
            assert(days_before_year(y as int + 1) == days_before_year(y as int) + days_in_year(
                y as int,
            ));
        }
        rem_days = rem_days - len;
        y = y + 1;
    }
    let ghost rem_year: int = rem_days as int;
    let mut m: u64 = 1;
    loop
        invariant
            1 <= m <= 12,
            days_before_month(y as int, m as int) + rem_days == rem_year,
            rem_year < days_in_year(y as int),
            days_before_year(y as int) + rem_year == days,
        ensures
            1 <= m <= 12,
            days_before_month(y as int, m as int) + rem_days == rem_year,
            days_before_year(y as int) + rem_year == days,
            rem_days < days_in_month(y as int, m as int),
        decreases 12 - m,
    {
        let len = days_in_month_exec(y, m);
        if rem_days < len {
            break;
        }
        proof {
            if m == 12 {
                lemma_year_months(y as int);
                assert(days_before_month(y as int, 13) == days_before_month(y as int, 12)
                    + days_in_month(y as int, 12));
                assert(false);
            }
            assert(days_before_month(y as int, m as int + 1) == days_before_month(
                y as int,
                m as int,
            ) + days_in_month(y as int, m as int));
        }
        rem_days = rem_days - len;
        m = m + 1;
    }
    let d: u64 = rem_days + 1;
    CivilTime { year: y, month: m, day: d, hour, minute, second }
}

/// The decimal digit bytes of `n`, most significant first.
pub open spec fn dec_bytes(n: nat) -> Seq<u8>
    decreases n,
{
    if n < 10 {
        seq![(48 + n) as u8]
    } else {
        dec_bytes(n / 10) + seq![(48 + n % 10) as u8]
    }
}

/// `dec_bytes(n)` left-padded with `'0'` to at least `w` bytes.
pub open spec fn dec_bytes_pad(n: nat, w: nat) -> Seq<u8>
    decreases w,
{
    if dec_bytes(n).len() >= w {
        dec_bytes(n)
    } else {
        seq![48u8] + dec_bytes_pad(n, (w - 1) as nat)
    }
}

proof fn lemma_dec_bytes_len(n: nat)
    ensures
        n < 10 ==> dec_bytes(n).len() == 1,
        10 <= n < 100 ==> dec_bytes(n).len() == 2,
        100 <= n < 1000 ==> dec_bytes(n).len() == 3,
        1000 <= n ==> dec_bytes(n).len() >= 4,
    decreases n,
{
    if n >= 10 {
        lemma_dec_bytes_len(n / 10);
        assert(10 <= n < 100 ==> 1 <= n / 10 < 10) by (nonlinear_arith);
        assert(100 <= n < 1000 ==> 10 <= n / 10 < 100) by (nonlinear_arith);
        assert(1000 <= n ==> 100 <= n / 10) by (nonlinear_arith);
    }
}

/// Every byte `dec_bytes` yields is a decimal digit byte.
pub proof fn lemma_dec_bytes_ascii(n: nat)
    ensures
        forall|i: int| 0 <= i < dec_bytes(n).len() ==> 48 <= #[trigger] dec_bytes(n)[i] <= 57,
    decreases n,
{
    if n < 10 {
        assert(dec_bytes(n).len() == 1);
        assert(dec_bytes(n)[0] == (48 + n) as u8);
    } else {
        lemma_dec_bytes_ascii(n / 10);
        assert forall|i: int| 0 <= i < dec_bytes(n).len() implies 48 <= #[trigger] dec_bytes(
            n,
        )[i] <= 57 by {
            if i < dec_bytes(n / 10).len() {
                assert(dec_bytes(n)[i] == dec_bytes(n / 10)[i]);
            } else {
                assert(dec_bytes(n)[i] == (48 + n % 10) as u8);
            }
        }
    }
}

proof fn lemma_dec_bytes_pad_ascii(n: nat, w: nat)
    ensures
        forall|i: int| 0 <= i < dec_bytes_pad(n, w).len() ==> 48 <= #[trigger] dec_bytes_pad(
            n,
            w,
        )[i] <= 57,
    decreases w,
{
    lemma_dec_bytes_ascii(n);
    if dec_bytes(n).len() < w {
        lemma_dec_bytes_pad_ascii(n, (w - 1) as nat);
        assert forall|i: int| 0 <= i < dec_bytes_pad(n, w).len() implies 48
            <= #[trigger] dec_bytes_pad(n, w)[i] <= 57 by {
            if i == 0 {
                assert(dec_bytes_pad(n, w)[0] == 48);
            } else {
                assert(dec_bytes_pad(n, w)[i] == dec_bytes_pad(n, (w - 1) as nat)[i - 1]);
            }
        }
    }
}

/// Appends the decimal digits of `n` to `out`.
fn push_dec(out: &mut Vec<u8>, n: u64)
    ensures
        final(out)@ == old(out)@ + dec_bytes(n as nat),
    decreases n,
{
    if n < 10 {
        out.push(48 + (n as u8));
        proof {
            assert(final(out)@ =~= old(out)@ + dec_bytes(n as nat));
        }
    } else {
        let q = n / 10;
        proof {
            assert(q < n) by (nonlinear_arith)
                requires
                    n >= 10,
                    q == n as int / 10,
            ;
        }
        push_dec(out, q);
        out.push(48 + ((n % 10) as u8));
        proof {
            assert(final(out)@ =~= old(out)@ + dec_bytes(n as nat));
        }
    }
}

/// Appends the digits of `n`, padded with `'0'` to two places.
fn push_dec2(out: &mut Vec<u8>, n: u64)
    requires
        n < 100,
    ensures
        final(out)@ == old(out)@ + dec_bytes_pad(n as nat, 2),
{
    proof {
        lemma_dec_bytes_len(n as nat);
    }
    if n < 10 {
        out.push(48);
        push_dec(out, n);
        proof {
            assert(dec_bytes_pad(n as nat, 2) =~= seq![48u8] + dec_bytes_pad(n as nat, 1));
            assert(dec_bytes_pad(n as nat, 1) == dec_bytes(n as nat));
            assert(final(out)@ =~= old(out)@ + dec_bytes_pad(n as nat, 2));
        }
    } else {
        push_dec(out, n);
        proof {
            assert(dec_bytes_pad(n as nat, 2) == dec_bytes(n as nat));
        }
    }
}

/// Appends the digits of `n`, padded with `'0'` to four places.
fn push_dec4(out: &mut Vec<u8>, n: u64)
    ensures
        final(out)@ == old(out)@ + dec_bytes_pad(n as nat, 4),
{
    proof {
        lemma_dec_bytes_len(n as nat);
    }
    if n < 10 {
        out.push(48);
        out.push(48);
        out.push(48);
        push_dec(out, n);
        proof {
            assert(dec_bytes_pad(n as nat, 1) == dec_bytes(n as nat));
            assert(dec_bytes_pad(n as nat, 2) =~= seq![48u8] + dec_bytes_pad(n as nat, 1));
            assert(dec_bytes_pad(n as nat, 3) =~= seq![48u8] + dec_bytes_pad(n as nat, 2));
            assert(dec_bytes_pad(n as nat, 4) =~= seq![48u8] + dec_bytes_pad(n as nat, 3));
            assert(final(out)@ =~= old(out)@ + dec_bytes_pad(n as nat, 4));
        }
    } else if n < 100 {
        out.push(48);
        out.push(48);
        push_dec(out, n);
        proof {
            assert(dec_bytes_pad(n as nat, 2) == dec_bytes(n as nat));
            assert(dec_bytes_pad(n as nat, 3) =~= seq![48u8] + dec_bytes_pad(n as nat, 2));
            assert(dec_bytes_pad(n as nat, 4) =~= seq![48u8] + dec_bytes_pad(n as nat, 3));
            assert(final(out)@ =~= old(out)@ + dec_bytes_pad(n as nat, 4));
        }
    } else if n < 1000 {
        out.push(48);
        push_dec(out, n);
        proof {
            assert(dec_bytes_pad(n as nat, 3) == dec_bytes(n as nat));
            assert(dec_bytes_pad(n as nat, 4) =~= seq![48u8] + dec_bytes_pad(n as nat, 3));
            assert(final(out)@ =~= old(out)@ + dec_bytes_pad(n as nat, 4));
        }
    } else {
        push_dec(out, n);
        proof {
            assert(dec_bytes_pad(n as nat, 4) == dec_bytes(n as nat));
        }
    }
}

/// The characters a sequence of ASCII bytes stands for.
pub open spec fn ascii_chars(s: Seq<u8>) -> Seq<char> {
    Seq::new(s.len(), |i: int| (s[i] as u32) as char)
}

/// ASCII bytes are valid UTF-8 and decode byte for byte.
proof fn lemma_ascii_decode(s: Seq<u8>)
    requires
        forall|i: int| 0 <= i < s.len() ==> #[trigger] s[i] < 0x80,
    ensures
        valid_utf8(s),
        decode_utf8(s) == ascii_chars(s),
    decreases s.len(),
{
    if s.len() > 0 {
        let b = s[0];
        assert(b & 0x7F == b) by (bit_vector)
            requires
                b < 0x80,
        ;
        assert(vstd::utf8::valid_first_scalar(s));
        assert(vstd::utf8::length_of_first_scalar(s) == 1);
        let rest = vstd::utf8::pop_first_scalar(s);
        assert(rest =~= s.skip(1));
        lemma_ascii_decode(rest);
        assert(decode_utf8(s) =~= ascii_chars(s));
    } else {
        assert(decode_utf8(s) =~= ascii_chars(s));
    }
}

/// The bytes of `YYYY-MM-DD HH:MM:SS UTC` for the given calendar fields.
pub open spec fn timestamp_bytes(y: nat, mo: nat, d: nat, h: nat, mi: nat, s: nat) -> Seq<u8> {
    dec_bytes_pad(y, 4) + seq![45u8] + dec_bytes_pad(mo, 2) + seq![45u8] + dec_bytes_pad(d, 2)
        + seq![32u8] + dec_bytes_pad(h, 2) + seq![58u8] + dec_bytes_pad(mi, 2) + seq![58u8]
        + dec_bytes_pad(s, 2) + seq![32u8, 85u8, 84u8, 67u8]
}

/// The text `YYYY-MM-DD HH:MM:SS UTC` for the moment `secs` seconds
/// after the Unix epoch.
pub open spec fn timestamp_of(secs: nat) -> Seq<char> {
    let days = secs / 86400;
    let tod = secs % 86400;
    let c = choose|c: (int, int, int)| is_civil_date(days as int, c.0, c.1, c.2);
    ascii_chars(
        timestamp_bytes(
            c.0 as nat,
            c.1 as nat,
            c.2 as nat,
            tod / 3600,
            (tod % 3600) / 60,
            (tod % 3600) % 60,
        ),
    )
}

/// Renders `secs` seconds after the Unix epoch as `YYYY-MM-DD HH:MM:SS UTC`.
pub fn format_utc_timestamp(secs: u64) -> (r: String)
    ensures
        r@ == timestamp_of(secs as nat),
{
    let t = civil_time_of(secs);
    let mut out: Vec<u8> = Vec::new();
    push_dec4(&mut out, t.year);
    out.push(45);
    push_dec2(&mut out, t.month);
    out.push(45);
    push_dec2(&mut out, t.day);
    out.push(32);
    push_dec2(&mut out, t.hour);
    out.push(58);
    push_dec2(&mut out, t.minute);
    out.push(58);
    push_dec2(&mut out, t.second);
    out.push(32);
    out.push(85);
    out.push(84);
    out.push(67);
    proof {
        let y = t.year as nat;
        let mo = t.month as nat;
        let d = t.day as nat;
        let h = t.hour as nat;
        let mi = t.minute as nat;
        let s = t.second as nat;
        assert(out@ =~= timestamp_bytes(y, mo, d, h, mi, s));
        lemma_dec_bytes_pad_ascii(y, 4);
        lemma_dec_bytes_pad_ascii(mo, 2);
        lemma_dec_bytes_pad_ascii(d, 2);
        lemma_dec_bytes_pad_ascii(h, 2);
        lemma_dec_bytes_pad_ascii(mi, 2);
        lemma_dec_bytes_pad_ascii(s, 2);
        assert(forall|i: int| 0 <= i < out@.len() ==> #[trigger] out@[i] < 0x80);
        lemma_ascii_decode(out@);
        let days = secs as nat / 86400;
        let w: (int, int, int) = (t.year as int, t.month as int, t.day as int);
        assert(is_civil_date(days as int, w.0, w.1, w.2));
        let c = choose|c: (int, int, int)| is_civil_date(days as int, c.0, c.1, c.2);
        assert(is_civil_date(days as int, c.0, c.1, c.2));
        lemma_civil_date_unique(days as int, c, w);
    }
    lossy_string(&out)
}

} // verus!

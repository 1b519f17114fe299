use vstd::prelude::*;

use chrono::TimeZone;

use crate::text::{decimal, digit_char, owned, push_char, push_decimal, push_str};

verus! {

/// Nanoseconds in a second.
pub const NANOS_PER_SEC: u64 = 1_000_000_000;

/// Seconds in a day.
pub const SECS_PER_DAY: u64 = 86_400;

/// `SystemTime::now()`, as nanoseconds since the Unix epoch (0 before the epoch, and
/// truncated to 64 bits). It reads the clock, so nothing is stated of its value.
#[verifier::external_body]
pub(crate) fn now_nanos() -> u64 {
    std::time::SystemTime::now().duration_since(std::time::UNIX_EPOCH).map(|d| d.as_nanos() as u64).unwrap_or(0)
}

/// Whether a moment `t` lies more than `days` whole days before `now` (both in
/// nanoseconds since the epoch, `t` negative before it): the elapsed whole seconds, zero
/// when `t` is not in the past, exceed `days` days. An unknown time is never old.
pub open spec fn older_at(time: Option<i64>, days: u64, now: u64) -> bool {
    match time {
        Some(t) => (if now >= t {
            (now - t) / (NANOS_PER_SEC as int)
        } else {
            0
        }) > days * SECS_PER_DAY,
        None => false,
    }
}

/// `older_at` for a given reading of the clock.
pub fn is_older_than_days_at(time: Option<i64>, days: u64, now: u64) -> (r: bool)
    requires
        days * SECS_PER_DAY <= u64::MAX,
    ensures
        r == older_at(time, days, now),
{
    match time {
        Some(t) => {
            let wide_now = now as i128;
            let wide_t = t as i128;
            let elapsed: u64 = if wide_now >= wide_t {
                let d: i128 = wide_now - wide_t;
                assert(0 <= d / 1_000_000_000 <= d) by (nonlinear_arith)
                    requires
                        d >= 0,
                ;
                (d / 1_000_000_000) as u64
            } else {
                0
            };
            elapsed > days * SECS_PER_DAY
        },
        None => false,
    }
}

/// Whether a file time lies more than `days` days in the past, by the clock now.
pub fn is_older_than_days(time: Option<i64>, days: u64) -> (r: bool)
    requires
        days * SECS_PER_DAY <= u64::MAX,
    ensures
        exists|now: u64| r == older_at(time, days, now),
        time is None ==> !r,
{
    let now = now_nanos();
    is_older_than_days_at(time, days, now)
}

/// The later of two optional times; an unknown time yields to a known one.
pub open spec fn later_time(a: Option<i64>, b: Option<i64>) -> Option<i64> {
    match (a, b) {
        (Some(x), Some(y)) => Some(if x >= y { x } else { y }),
        (Some(x), None) => Some(x),
        (None, Some(y)) => Some(y),
        (None, None) => None,
    }
}

/// The later of two optional times.
pub fn later_of(a: Option<i64>, b: Option<i64>) -> (r: Option<i64>)
    ensures
        r == later_time(a, b),
{
    match (a, b) {
        (Some(x), Some(y)) => Some(if x >= y { x } else { y }),
        (Some(x), None) => Some(x),
        (None, Some(y)) => Some(y),
        (None, None) => None,
    }
}

/// The text shown for an unknown date.
pub open spec fn unknown_date() -> Seq<char> {
    "N/A"@
}

/// Whether `c` is a decimal digit.
pub open spec fn is_digit(c: char) -> bool {
    '0' <= c <= '9'
}

/// The number written by two decimal digits at `at` of `s`.
pub open spec fn two_digits(s: Seq<char>, at: int) -> int {
    (s[at] as int - '0' as int) * 10 + (s[at + 1] as int - '0' as int)
}

/// The shape of a date and time written `YYYY-MM-DD HH:MM`: sixteen characters, digits
/// but for `-` at 4 and 7, a space at 10 and `:` at 13, with a month from 01 to 12, a
/// day from 01 to 31, an hour from 00 to 23 and a minute from 00 to 59.
pub open spec fn is_date_minutes(s: Seq<char>) -> bool {
    &&& s.len() == 16
    &&& forall|i: int| 0 <= i < 16 && i != 4 && i != 7 && i != 10 && i != 13 ==> #[trigger] is_digit(s[i])
    &&& s[4] == '-' && s[7] == '-' && s[10] == ' ' && s[13] == ':'
    &&& 1 <= two_digits(s, 5) <= 12
    &&& 1 <= two_digits(s, 8) <= 31
    &&& two_digits(s, 11) <= 23
    &&& two_digits(s, 14) <= 59
}

/// Nanoseconds in a second, as an integer of the specifications.
pub open spec fn nanos_per_sec() -> int {
    1_000_000_000
}

/// The offsets, in seconds, a time zone can have from UTC: chrono's `FixedOffset` holds
/// only offsets strictly within a day.
pub open spec fn is_zone_offset(o: int) -> bool {
    -86_400 < o < 86_400
}

/// Second counts handed to `utc_minutes`: those of a 64-bit nanosecond time moved by a
/// time zone's offset, with room to spare (about 295 years either side of 1970).
pub const UTC_SECS_BOUND: i64 = 9_300_000_000;

/// chrono's `format("%Y-%m-%d %H:%M")` text of the UTC date and time `secs` whole seconds
/// after the Unix epoch.
pub uninterp spec fn utc_minutes_text(secs: int) -> Seq<char>;

/// chrono: `DateTime::from_timestamp(secs, 0)` formatted with `format("%Y-%m-%d %H:%M")`.
/// The result is named `utc_minutes_text` of `secs`. `from_timestamp` fails only hundreds
/// of thousands of years away, far outside the range required here; in that range the year
/// lies between 1675 and 2265, which chrono writes as four digits, and the other fields as
/// two zero-padded digits, so the text has the shape `is_date_minutes`.
#[verifier::external_body]
fn utc_minutes(secs: i64) -> (r: String)
    requires
        -UTC_SECS_BOUND <= secs <= UTC_SECS_BOUND,
    ensures
        r@ == utc_minutes_text(secs as int),
        is_date_minutes(r@),
{
    match chrono::DateTime::from_timestamp(secs, 0) {
        Some(utc) => utc.format("%Y-%m-%d %H:%M").to_string(),
        None => String::new(),
    }
}

/// chrono: the machine's offset from UTC, in seconds (`FixedOffset::local_minus_utc`), at
/// the moment `nanos` (`DateTime::from_timestamp_nanos`), as `Local.offset_from_utc_datetime`
/// gives it; this is the offset `with_timezone(&Local)` applies. A `FixedOffset` lies
/// strictly within a day (`FixedOffset::east_opt`); which offset applies depends on the
/// machine's time zone, so no more is stated.
#[verifier::external_body]
fn local_offset_secs(nanos: i64) -> (r: i32)
    ensures
        is_zone_offset(r as int),
{
    let utc = chrono::DateTime::from_timestamp_nanos(nanos);
    chrono::Local.offset_from_utc_datetime(&utc.naive_utc()).local_minus_utc()
}

/// The whole seconds of a time in nanoseconds, rounded down (as `div_euclid` rounds).
pub fn whole_seconds(nanos: i64) -> (r: i64)
    ensures
        r as int == nanos as int / nanos_per_sec(),
{
    let w = nanos as i128;
    let d: i128 = 1_000_000_000;
    if w >= 0 {
        let q = w / d;
        proof {
            vstd::arithmetic::div_mod::lemma_fundamental_div_mod(w as int, d as int);
            assert(0 <= w % d < d);
            vstd::arithmetic::div_mod::lemma_fundamental_div_mod_converse(w as int, d as int, q as int, (w % d) as int);
            assert(0 <= q <= w) by (nonlinear_arith)
                requires
                    w >= 0,
                    d == 1_000_000_000,
                    q == w / d,
            ;
        }
        q as i64
    } else {
        let m: i128 = -w;
        let c = (m + d - 1) / d;
        proof {
            let di: int = 1_000_000_000;
            let t: int = m + d - 1;
            let ci: int = c as int;
            assert(ci == t / di);
            vstd::arithmetic::div_mod::lemma_fundamental_div_mod(t, di);
            assert(0 <= t % di < di);
            let r: int = w + di * ci;
            assert(w == (-ci) * di + r) by (nonlinear_arith)
                requires
                    r == w + di * ci,
            ;
            assert(0 <= r < di) by (nonlinear_arith)
                requires
                    r == w + di * ci,
                    m == -w,
                    di == 1_000_000_000,
                    t == m + di - 1,
                    t == di * ci + t % di,
                    0 <= t % di < di,
            ;
            vstd::arithmetic::div_mod::lemma_fundamental_div_mod_converse(w as int, di, -ci, r);
            assert(0 <= ci <= m) by (nonlinear_arith)
                requires
                    m > 0,
                    di == 1_000_000_000,
                    t == m + di - 1,
                    t == di * ci + t % di,
                    0 <= t % di < di,
            ;
        }
        -c as i64
    }
}

/// The texts the local date and time of `nanos` can be: its UTC text, in whole seconds,
/// moved by some offset a time zone can have.
pub open spec fn local_minutes_text(nanos: int, r: Seq<char>) -> bool {
    exists|o: int| is_zone_offset(o) && r == #[trigger] utc_minutes_text(nanos / nanos_per_sec() + o)
}

/// Formats a file time as the local date and time `YYYY-MM-DD HH:MM`: the UTC text of its
/// whole seconds moved by the machine's offset from UTC at that moment; `N/A` when it is
/// unknown.
pub fn format_date(time: Option<i64>) -> (r: String)
    ensures
        time is None ==> r@ == unknown_date(),
        time matches Some(t) ==> is_date_minutes(r@) && local_minutes_text(t as int, r@),
{
    match time {
        Some(t) => {
            let secs = whole_seconds(t);
            let offset = local_offset_secs(t);
            proof {
                assert(-9_223_372_037 <= secs <= 9_223_372_036) by (nonlinear_arith)
                    requires
                        secs as int == t as int / 1_000_000_000,
                        i64::MIN <= t <= i64::MAX,
                ;
            }
            let local = secs + offset as i64;
            let r = utc_minutes(local);
            assert(r@ == utc_minutes_text(t as int / nanos_per_sec() + offset as int));
            r
        },
        None => owned("N/A"),
    }
}

/// Bytes in a kilobyte, a megabyte and a gigabyte.
pub const KB: u64 = 1024;
pub const MB: u64 = 1024 * 1024;
pub const GB: u64 = 1024 * 1024 * 1024;

/// Integers below this are exactly representable as `f64`.
pub const F64_EXACT: u128 = 0x20_0000_0000_0000;

/// The spacing of `f64` values around `n`: 1 below 2^53, and doubling with each binary
/// digit above.
pub open spec fn f64_spacing(n: nat) -> nat
    decreases n,
{
    if n < F64_EXACT {
        1
    } else {
        2 * f64_spacing(n / 2)
    }
}

/// `n / d` rounded to the nearest integer, ties to the even one.
pub open spec fn div_round_even(n: nat, d: nat) -> nat {
    let q = n / d;
    let r = n % d;
    if 2 * r > d || (2 * r == d && q % 2 == 1) {
        q + 1
    } else {
        q
    }
}

/// The value of `n as f64`: `n` rounded to the nearest multiple of the spacing of `f64`
/// values there, ties to the even multiple.
pub open spec fn f64_value(n: nat) -> nat {
    div_round_even(n, f64_spacing(n)) * f64_spacing(n)
}

/// A count of tenths written with one decimal: `12` as `1.2`.
pub open spec fn one_decimal(tenths: nat) -> Seq<char> {
    decimal(tenths / 10) + seq!['.', digit_char(tenths % 10)]
}

/// `value / unit` with one decimal, rounded to the nearest tenth, ties to even (as
/// `{:.1}` formats the exact quotient).
pub open spec fn in_unit(value: nat, unit: nat) -> Seq<char> {
    one_decimal(div_round_even(value * 10, unit))
}

/// A size in bytes as text: in GB, MB or KB with one decimal from 1 KB on (the size is
/// first taken as an `f64`, which is exact below 2^53), otherwise the bytes as an integer.
pub open spec fn size_text(bytes: nat) -> Seq<char> {
    if bytes >= GB {
        in_unit(f64_value(bytes), GB as nat) + " GB"@
    } else if bytes >= MB {
        in_unit(bytes, MB as nat) + " MB"@
    } else if bytes >= KB {
        in_unit(bytes, KB as nat) + " KB"@
    } else {
        decimal(bytes) + " B"@
    }
}

/// `div_round_even` on machine integers.
fn exec_div_round_even(n: u128, d: u128) -> (r: u128)
    requires
        d > 0,
        n / d < u128::MAX,
    ensures
        r == div_round_even(n as nat, d as nat),
{
    let q = n / d;
    let rem = n % d;
    if rem > d - rem || (rem == d - rem && q % 2 == 1) {
        q + 1
    } else {
        q
    }
}

/// The value of `n as f64`, as an integer.
fn exec_f64_value(n: u64) -> (r: u128)
    ensures
        r == f64_value(n as nat),
        r <= 2 * (u64::MAX as int),
{
    let mut m: u128 = n as u128;
    let mut d: u128 = 1;
    while m >= F64_EXACT
        invariant
            1 <= d,
            d == 1 || d <= n,
            m == n as nat / d as nat,
            f64_spacing(n as nat) == d * f64_spacing(m as nat),
        decreases m,
    {
        proof {
            vstd::arithmetic::div_mod::lemma_div_denominator(n as int, d as int, 2);
            vstd::arithmetic::div_mod::lemma_fundamental_div_mod(n as int, (d * 2) as int);
            assert(n as nat / (d * 2) as nat >= 1);
            assert((d * 2) * (n as nat / (d * 2) as nat) <= n) by (nonlinear_arith)
                requires
                    (d * 2) * (n as nat / (d * 2) as nat) + n as nat % (d * 2) as nat == n as int,
                    n as nat % (d * 2) as nat >= 0;
            assert(d * 2 <= n) by (nonlinear_arith)
                requires
                    (d * 2) * (n as nat / (d * 2) as nat) <= n,
                    n as nat / (d * 2) as nat >= 1,
                    d >= 1;
            let sp = f64_spacing((m / 2) as nat);
            assert(f64_spacing(m as nat) == 2 * sp);
            assert(d * (2 * sp) == (d * 2) * sp) by (nonlinear_arith);
        }
        m = m / 2;
        d = d * 2;
    }
    assert(f64_spacing(m as nat) == 1);
    assert(f64_spacing(n as nat) == d) by (nonlinear_arith)
        requires
            f64_spacing(n as nat) == d * f64_spacing(m as nat),
            f64_spacing(m as nat) == 1;
    proof {
        vstd::arithmetic::div_mod::lemma_fundamental_div_mod(n as int, d as int);
    }
    let q = exec_div_round_even(n as u128, d);
    proof {
        let qq = n as nat / d as nat;
        let rr = n as nat % d as nat;
        assert(q <= qq + 1);
        assert(d * qq + rr == n);
        if d == 1 {
            assert(qq == n && rr == 0);
            assert(q == n);
        } else {
            assert(q * d <= n + d) by (nonlinear_arith)
                requires
                    q <= qq + 1,
                    d * qq + rr == n,
                    rr >= 0,
                    d >= 1;
        }
    }
    q * d
}

/// Writes a count of tenths with one decimal after `s`.
fn push_one_decimal(s: &mut String, tenths: u64)
    ensures
        final(s)@ == old(s)@ + one_decimal(tenths as nat),
{
    push_decimal(s, tenths / 10);
    push_char(s, '.');
    let d = tenths % 10;
    let c = if d == 0 { '0' } else if d == 1 { '1' } else if d == 2 { '2' } else if d == 3 { '3' }
        else if d == 4 { '4' } else if d == 5 { '5' } else if d == 6 { '6' } else if d == 7 { '7' }
        else if d == 8 { '8' } else { '9' };
    push_char(s, c);
}

/// `value / unit` with one decimal, then the unit's name.
fn push_in_unit(s: &mut String, value: u128, unit: u64, name: &str)
    requires
        unit >= KB,
        value <= 2 * (u64::MAX as int),
    ensures
        final(s)@ == old(s)@ + in_unit(value as nat, unit as nat) + name@,
{
    let t = exec_div_round_even(value * 10, unit as u128);
    proof {
        let x = (value * 10) as int;
        assert(t <= x / (unit as int) + 1);
        vstd::arithmetic::div_mod::lemma_div_is_ordered_by_denominator(x, 1024, unit as int);
        vstd::arithmetic::div_mod::lemma_div_is_ordered(x, 20 * (u64::MAX as int), 1024);
        assert(20 * (u64::MAX as int) / 1024 < u64::MAX - 1);
    }
    push_one_decimal(s, t as u64);
    push_str(s, name);
}

/// Formats a size in bytes for people: `512 B`, `1.5 KB`, `2.0 MB`, `3.2 GB`.
pub fn format_size(bytes: u64) -> (r: String)
    ensures
        r@ == size_text(bytes as nat),
{
    let mut s = String::new();
    if bytes >= GB {
        let v = exec_f64_value(bytes);
        push_in_unit(&mut s, v, GB, " GB");
    } else if bytes >= MB {
        push_in_unit(&mut s, bytes as u128, MB, " MB");
    } else if bytes >= KB {
        push_in_unit(&mut s, bytes as u128, KB, " KB");
    } else {
        push_decimal(&mut s, bytes);
        push_str(&mut s, " B");
    }
    s
}

} // verus!

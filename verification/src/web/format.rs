//! How amounts of time and data are written out.

use vstd::prelude::*;

use crate::numbers::decimal;
use crate::numbers::decimal_u64;

verus! {

/// How long a time of `secs` seconds is, in words.
pub open spec fn duration_text(secs: nat) -> Seq<char> {
    let days = secs / 86400;
    let hours = (secs % 86400) / 3600;
    let minutes = (secs % 3600) / 60;
    let seconds = secs % 60;
    if days > 0 {
        decimal(days) + "d "@ + decimal(hours) + "h "@ + decimal(minutes) + "m"@
    } else if hours > 0 {
        decimal(hours) + "h "@ + decimal(minutes) + "m "@ + decimal(seconds) + "s"@
    } else if minutes > 0 {
        decimal(minutes) + "m "@ + decimal(seconds) + "s"@
    } else {
        decimal(seconds) + "s"@
    }
}

pub fn format_duration(secs: u64) -> (r: String)
    ensures
        r@ == duration_text(secs as nat),
{
    let days: u64 = secs / 86400;
    let hours: u64 = (secs % 86400) / 3600;
    let minutes: u64 = (secs % 3600) / 60;
    let seconds: u64 = secs % 60;
    if days > 0 {
        let mut r: String = decimal_u64(days);
        r.append("d ");
        r.append(&decimal_u64(hours));
        r.append("h ");
        r.append(&decimal_u64(minutes));
        r.append("m");
        r
    } else if hours > 0 {
        let mut r: String = decimal_u64(hours);
        r.append("h ");
        r.append(&decimal_u64(minutes));
        r.append("m ");
        r.append(&decimal_u64(seconds));
        r.append("s");
        r
    } else if minutes > 0 {
        let mut r: String = decimal_u64(minutes);
        r.append("m ");
        r.append(&decimal_u64(seconds));
        r.append("s");
        r
    } else {
        let mut r: String = decimal_u64(seconds);
        r.append("s");
        r
    }
}

/// How long a job has run: seconds, or minutes and seconds from a minute on.
pub open spec fn run_text(secs: nat) -> Seq<char> {
    if secs < 60 {
        decimal(secs) + "s"@
    } else {
        decimal(secs / 60) + "m "@ + decimal(secs % 60) + "s"@
    }
}

/// How long a job has run between its start and its end, or `now` if it still runs; a job that
/// never started has no such time, and one that ends before its start took none.
pub open spec fn job_duration(start: Option<u64>, end: Option<u64>, now: u64) -> Seq<char> {
    match start {
        Some(start) => {
            let end = if end is Some {
                end->0
            } else {
                now
            };
            run_text(
                if end > start {
                    (end - start) as nat
                } else {
                    0
                },
            )
        },
        None => "-"@,
    }
}

pub fn job_duration_text(start: Option<u64>, end: Option<u64>, now: u64) -> (r: String)
    ensures
        r@ == job_duration(start, end, now),
{
    match start {
        Some(start) => {
            let end: u64 = match end {
                Some(end) => end,
                None => now,
            };
            let dur: u64 = if end > start {
                end - start
            } else {
                0
            };
            if dur < 60 {
                let mut r: String = decimal_u64(dur);
                r.append("s");
                r
            } else {
                let mut r: String = decimal_u64(dur / 60);
                r.append("m ");
                r.append(&decimal_u64(dur % 60));
                r.append("s");
                r
            }
        },
        None => "-".to_string(),
    }
}

/// `n / unit`, rounded to the nearest whole number; halfway between two, to the even one.
pub open spec fn rounded(n: nat, unit: nat) -> nat {
    let q = n / unit;
    let rest = n % unit;
    if 2 * rest < unit || (2 * rest == unit && q % 2 == 0) {
        q
    } else {
        q + 1
    }
}

fn round_div(n: u128, unit: u128) -> (r: u128)
    requires
        0 < unit,
        n < 0x1_0000_0000_0000_0000_0000_0000,
        unit < 0x1_0000_0000_0000_0000_0000_0000,
    ensures
        r == rounded(n as nat, unit as nat),
        r <= n / unit + 1,
{
    let q: u128 = n / unit;
    let rest: u128 = n % unit;
    assert(q <= n) by (nonlinear_arith)
        requires
            q == n / unit,
            0 < unit,
    ;
    if 2 * rest < unit || (2 * rest == unit && q % 2 == 0) {
        q
    } else {
        q + 1
    }
}

/// The distance between neighbours among the whole numbers of 53 significant bits around `n`.
pub open spec fn spacing(n: nat) -> nat
    decreases n,
{
    if n < 0x20_0000_0000_0000 {
        1
    } else {
        2 * spacing(n / 2)
    }
}

fn spacing_of(n: u64) -> (r: u64)
    ensures
        r == spacing(n as nat),
        r == 1 || r * 0x10_0000_0000_0000 <= n,
        0 < r,
    decreases n,
{
    if n < 0x20_0000_0000_0000 {
        1
    } else {
        let half: u64 = spacing_of(n / 2);
        2 * half
    }
}

/// The number of 53 significant bits that is nearest to `n`.
pub open spec fn at_53_bits(n: nat) -> nat {
    rounded(n, spacing(n)) * spacing(n)
}

fn nearest_53_bits(n: u64) -> (r: u128)
    ensures
        r == at_53_bits(n as nat),
        r <= n + spacing(n as nat),
        spacing(n as nat) <= 0x1000,
{
    let unit: u64 = spacing_of(n);
    let q: u128 = round_div(n as u128, unit as u128);
    assert(q * unit <= n + unit) by (nonlinear_arith)
        requires
            q <= n / unit + 1,
            0 < unit,
            0 <= n,
    ;
    q * (unit as u128)
}

/// `value / unit` with one digit behind the point.
pub open spec fn one_decimal(value: nat, unit: nat) -> Seq<char> {
    let tenths = rounded(10 * value, unit);
    decimal(tenths / 10) + "."@ + decimal(tenths % 10)
}

fn one_decimal_text(value: u128, unit: u128) -> (r: String)
    requires
        value <= 0x1_0000_0000_0000_1000,
        0 < unit < 0x1_0000_0000_0000_0000_0000_0000,
        10 * value / (unit as int) + 1 < u64::MAX,
    ensures
        r@ == one_decimal(value as nat, unit as nat),
{
    let tenths: u128 = round_div(10 * value, unit);
    let tenths: u64 = tenths as u64;
    let mut r: String = decimal_u64(tenths / 10);
    r.append(".");
    r.append(&decimal_u64(tenths % 10));
    r
}

/// An amount of data in the largest unit that it reaches, with one digit behind the point. From
/// 2 to the power of 53 on, an amount is first taken at 53 significant bits.
pub open spec fn data_text(
    n: nat,
    plain: Seq<char>,
    kilo: Seq<char>,
    mega: Seq<char>,
    giga: Seq<char>,
) -> Seq<char> {
    if n < 0x400 {
        decimal(n) + plain
    } else if n < 0x10_0000 {
        one_decimal(n, 0x400) + kilo
    } else if n < 0x4000_0000 {
        one_decimal(n, 0x10_0000) + mega
    } else {
        one_decimal(at_53_bits(n), 0x4000_0000) + giga
    }
}

fn data_amount(n: u64, plain: &str, kilo: &str, mega: &str, giga: &str) -> (r: String)
    ensures
        r@ == data_text(n as nat, plain@, kilo@, mega@, giga@),
{
    if n < 0x400 {
        let mut r: String = decimal_u64(n);
        r.append(plain);
        r
    } else if n < 0x10_0000 {
        let mut r: String = one_decimal_text(n as u128, 0x400);
        r.append(kilo);
        r
    } else if n < 0x4000_0000 {
        let mut r: String = one_decimal_text(n as u128, 0x10_0000);
        r.append(mega);
        r
    } else {
        let mut r: String = one_decimal_text(nearest_53_bits(n), 0x4000_0000);
        r.append(giga);
        r
    }
}

pub open spec fn bytes_text(n: nat) -> Seq<char> {
    data_text(n, " B"@, " KB"@, " MB"@, " GB"@)
}

pub fn format_bytes(bytes: u64) -> (r: String)
    ensures
        r@ == bytes_text(bytes as nat),
{
    data_amount(bytes, " B", " KB", " MB", " GB")
}

pub open spec fn rate_text(n: nat) -> Seq<char> {
    data_text(n, " B/s"@, " KiB/s"@, " MiB/s"@, " GiB/s"@)
}

pub fn format_rate(bytes_per_second: u64) -> (r: String)
    ensures
        r@ == rate_text(bytes_per_second as nat),
{
    data_amount(bytes_per_second, " B/s", " KiB/s", " MiB/s", " GiB/s")
}

/// `value / unit` with two digits behind the point.
pub open spec fn two_decimals(value: nat, unit: nat) -> Seq<char> {
    let hundredths = rounded(100 * value, unit);
    decimal(hundredths / 100) + "."@ + decimal(hundredths % 100 / 10) + decimal(hundredths % 10)
}

/// An amount of data in megabytes, with two digits behind the point. From 2 to the power of 53
/// on, an amount is first taken at 53 significant bits.
pub open spec fn megabytes_text(n: nat) -> Seq<char> {
    two_decimals(at_53_bits(n), 0x10_0000) + " MB"@
}

pub fn format_megabytes(bytes: u64) -> (r: String)
    ensures
        r@ == megabytes_text(bytes as nat),
{
    let value: u128 = nearest_53_bits(bytes);
    let hundredths: u128 = round_div(100 * value, 0x10_0000);
    let hundredths: u64 = hundredths as u64;
    let mut r: String = decimal_u64(hundredths / 100);
    r.append(".");
    r.append(&decimal_u64(hundredths % 100 / 10));
    r.append(&decimal_u64(hundredths % 10));
    r.append(" MB");
    r
}

/// A rate in megabytes, from whole kilobytes, with one digit behind the point.
pub open spec fn megabyte_rate_text(rate: nat) -> Seq<char> {
    one_decimal(at_53_bits(rate / 1024), 1024) + " MB/s"@
}

pub fn format_megabyte_rate(rate: u64) -> (r: String)
    ensures
        r@ == megabyte_rate_text(rate as nat),
{
    let mut r: String = one_decimal_text(nearest_53_bits(rate / 1024), 1024);
    r.append(" MB/s");
    r
}

/// The smallest power of two by which `n` is multiplied so that `n / unit` has 53 bits or more in
/// front of the point.
pub open spec fn scale(n: nat, unit: nat) -> nat
    decreases
        if n < unit * 0x10_0000_0000_0000 {
            unit * 0x10_0000_0000_0000 - n
        } else {
            0
        },
{
    if n == 0 || n >= unit * 0x10_0000_0000_0000 {
        1
    } else {
        2 * scale(2 * n, unit)
    }
}

fn scale_of(n: u128, unit: u128) -> (s: u128)
    requires
        n <= 0x8_0000_0000_0000_0000_0000,
        0 < unit <= 0x4000_0000,
    ensures
        s == scale(n as nat, unit as nat),
        0 < s,
        n * s <= 0x8_0000_0000_0000_0000_0000,
        s <= 0x8_0000_0000_0000_0000_0000,
        s == 1 || n * s < unit * 0x20_0000_0000_0000,
    decreases
        if n < unit * 0x10_0000_0000_0000 {
            unit * 0x10_0000_0000_0000 - n
        } else {
            0
        },
{
    if n == 0 || n >= unit * 0x10_0000_0000_0000 {
        1
    } else if 2 * n >= unit * 0x10_0000_0000_0000 {
        assert(scale(2 * n as nat, unit as nat) == 1);
        2
    } else {
        let half: u128 = scale_of(2 * n, unit);
        assert(n * (2 * half) == (2 * n) * half) by (nonlinear_arith);
        assert(2 * half <= n * (2 * half)) by (nonlinear_arith)
            requires
                1 <= n,
        ;
        assert(half != 1) by {
            assert(scale(4 * n as nat, unit as nat) >= 1) by {
                lemma_scale_positive(4 * n as nat, unit as nat);
            }
        }
        2 * half
    }
}

proof fn lemma_scale_positive(n: nat, unit: nat)
    ensures
        1 <= scale(n, unit),
    decreases
        if n < unit * 0x10_0000_0000_0000 {
            unit * 0x10_0000_0000_0000 - n
        } else {
            0
        },
{
    if n != 0 && n < unit * 0x10_0000_0000_0000 {
        lemma_scale_positive(2 * n, unit);
    }
}

/// `n / unit` with one digit behind the point, where both `n` and the quotient are first taken at
/// 53 significant bits. Meant for quotients below 2 to the power of 53.
pub open spec fn quotient_text(n: nat, unit: nat) -> Seq<char> {
    let value = at_53_bits(n);
    let s = scale(value, unit);
    one_decimal(rounded(value * s, unit), s)
}

fn quotient(n: u64, unit: u128) -> (r: String)
    requires
        1000 <= unit <= 0x4000_0000,
    ensures
        r@ == quotient_text(n as nat, unit as nat),
{
    let value: u128 = nearest_53_bits(n);
    let s: u128 = scale_of(value, unit);
    let m: u128 = round_div(value * s, unit);
    assert(value * s / (unit as int) <= 0x100_0000_0000_0000) by {
        if s == 1 {
            assert(value * s == value) by (nonlinear_arith)
                requires
                    s == 1,
            ;
            assert(value / unit <= 0x100_0000_0000_0000) by (nonlinear_arith)
                requires
                    value <= 0x1_0000_0000_0000_1000,
                    1000 <= unit,
            ;
        } else {
            assert(value * s / (unit as int) <= 0x100_0000_0000_0000) by (nonlinear_arith)
                requires
                    value * s < unit * 0x20_0000_0000_0000,
                    0 < unit,
            ;
        }
    }
    assert(10 * m / (s as int) <= 10 * m) by (nonlinear_arith)
        requires
            0 < s,
            0 <= m,
    ;
    one_decimal_text(m, s)
}

/// How long a worker has been up: hours with one digit behind the point, or minutes below an
/// hour.
pub open spec fn uptime_text(secs: nat) -> Seq<char> {
    if secs >= 3600 {
        quotient_text(secs, 3600) + "h"@
    } else {
        decimal(secs / 60) + "m"@
    }
}

pub fn format_uptime(secs: u64) -> (r: String)
    ensures
        r@ == uptime_text(secs as nat),
{
    if secs >= 3600 {
        let mut r: String = quotient(secs, 3600);
        r.append("h");
        r
    } else {
        let mut r: String = decimal_u64(secs / 60);
        r.append("m");
        r
    }
}

/// An amount of data in units of a thousand million bytes, with one digit behind the point.
pub fn format_billions(bytes: u64) -> (r: String)
    ensures
        r@ == quotient_text(bytes as nat, 1_000_000_000),
{
    quotient(bytes, 1_000_000_000)
}

/// `n / unit` without a fraction, where `n` is first taken at 53 significant bits.
pub open spec fn whole_text(n: nat, unit: nat) -> Seq<char> {
    decimal(rounded(at_53_bits(n), unit))
}

fn decimal_wide(n: u128) -> (r: String)
    requires
        n <= 0x1_0000_0000_0000_ffff,
    ensures
        r@ == decimal(n as nat),
{
    if n < 10 {
        decimal_u64(n as u64)
    } else {
        let mut r: String = decimal_u64((n / 10) as u64);
        let last: String = decimal_u64((n % 10) as u64);
        r.append(&last);
        assert(r@ =~= decimal(n as nat));
        r
    }
}

fn whole(n: u64, unit: u128) -> (r: String)
    requires
        0 < unit <= 0x4000_0000,
    ensures
        r@ == whole_text(n as nat, unit as nat),
{
    let value: u128 = nearest_53_bits(n);
    let q: u128 = round_div(value, unit);
    assert(value / unit <= value) by (nonlinear_arith)
        requires
            0 < unit,
    ;
    decimal_wide(q)
}

/// The memory of a worker: what is allocated, as it is given, and what there is, in units of 2 to
/// the power of 30 bytes.
pub open spec fn memory_text(allocated: nat, total: nat) -> Seq<char> {
    whole_text(allocated, 1) + "/"@ + whole_text(total, 0x4000_0000) + "G"@
}

pub fn format_memory(allocated: u64, total: u64) -> (r: String)
    ensures
        r@ == memory_text(allocated as nat, total as nat),
{
    let mut r: String = whole(allocated, 1);
    r.append("/");
    r.append(&whole(total, 0x4000_0000));
    r.append("G");
    r
}

/// A rounded quotient is off by at most half a unit.
pub proof fn law_rounding_is_close(n: nat, unit: nat)
    requires
        0 < unit,
    ensures
        2 * (rounded(n, unit) * unit) <= 2 * n + unit,
        2 * n <= 2 * (rounded(n, unit) * unit) + unit,
{
    let q = n / unit;
    let rest = n % unit;
    assert(n == q * unit + rest) by (nonlinear_arith)
        requires
            q == n / unit,
            rest == n % unit,
            0 < unit,
    ;
    assert((q + 1) * unit == q * unit + unit) by (nonlinear_arith);
}

/// The days, hours, minutes and seconds of a written time add up to it.
pub proof fn law_duration_parts_add_up(secs: nat)
    ensures
        (secs / 86400) * 86400 + ((secs % 86400) / 3600) * 3600 + ((secs % 3600) / 60) * 60 + secs
            % 60 == secs,
{
}

proof fn lemma_parted(x: nat, q: nat, r: nat, k: nat)
    requires
        x == q * k + r,
        r < k,
    ensures
        x / k == q,
        x % k == r,
{
    assert(x / k == q && x % k == r) by (nonlinear_arith)
        requires
            x == q * k + r,
            0 <= r < k,
    ;
}

/// A time is written in the units that it reaches: with days, without seconds; below a day, from the
/// largest unit down to seconds.
pub proof fn law_times_are_written_in_their_units(d: nat, h: nat, m: nat, s: nat)
    requires
        h < 24 && m < 60 && s < 60,
    ensures
        ({
            let text = duration_text(d * 86400 + h * 3600 + m * 60 + s);
            &&& d > 0 ==> text == decimal(d) + "d "@ + decimal(h) + "h "@ + decimal(m) + "m"@
            &&& d == 0 && h > 0 ==> text == decimal(h) + "h "@ + decimal(m) + "m "@ + decimal(s)
                + "s"@
            &&& d == 0 && h == 0 && m > 0 ==> text == decimal(m) + "m "@ + decimal(s) + "s"@
            &&& d == 0 && h == 0 && m == 0 ==> text == decimal(s) + "s"@
        }),
{
    let a = m * 60 + s;
    let b = h * 3600 + a;
    let n = d * 86400 + b;
    lemma_parted(n, d, b, 86400);
    lemma_parted(b, h, a, 3600);
    lemma_parted(n, 24 * d + h, a, 3600);
    lemma_parted(a, m, s, 60);
    lemma_parted(n, 1440 * d + 60 * h + m, s, 60);
    assert(n == d * 86400 + h * 3600 + m * 60 + s);
}

/// A job that has ended took the time from its start to its end, and one that runs has taken that
/// from its start to now; one that never started has taken none.
pub proof fn law_run_times_are_written(start: u64, m: u64, s: u64, now: u64)
    requires
        s < 60,
        start + m * 60 + s <= u64::MAX,
    ensures
        ({
            let end = (start + m * 60 + s) as u64;
            let text = if m == 0 {
                decimal(s as nat) + "s"@
            } else {
                decimal(m as nat) + "m "@ + decimal(s as nat) + "s"@
            };
            &&& job_duration(Some(start), Some(end), now) == text
            &&& job_duration(Some(start), None, end) == text
            &&& job_duration(Some(end), Some(start), now) == "0s"@
            &&& job_duration(None, Some(end), now) == "-"@
        }),
{
    reveal_strlit("0s");
    reveal_strlit("s");
    let end = (start + m * 60 + s) as u64;
    let dur = (m * 60 + s) as nat;
    assert(dur / 60 == m && dur % 60 == s);
    assert(decimal(0) =~= seq!['0']);
    assert(decimal(0) + "s"@ =~= "0s"@);
}

proof fn lemma_rounded_exact(t: nat, unit: nat)
    requires
        0 < unit,
    ensures
        rounded(unit * t, unit) == t,
{
    let n = unit * t;
    assert(n / unit == t && n % unit == 0) by (nonlinear_arith)
        requires
            n == unit * t,
            0 < unit,
    ;
}

/// A quotient that has one digit behind the point is written with it; likewise one with two.
pub proof fn law_digits_behind_the_point_are_written(value: nat, unit: nat, t: nat)
    requires
        0 < unit,
    ensures
        10 * value == unit * t ==> one_decimal(value, unit) == decimal(t / 10) + "."@ + decimal(
            t % 10,
        ),
        100 * value == unit * t ==> two_decimals(value, unit) == decimal(t / 100) + "."@ + decimal(
            t % 100 / 10,
        ) + decimal(t % 10),
{
    lemma_rounded_exact(t, unit);
}

proof fn lemma_exact_at_53_bits(n: nat)
    requires
        n < 0x20_0000_0000_0000,
    ensures
        at_53_bits(n) == n,
{
    lemma_rounded_exact(n, 1);
    assert(spacing(n) == 1);
}

/// An amount of data is written in the largest unit that it reaches, each of which is 1024 of the
/// one before; so is a rate.
pub proof fn law_amounts_are_written_in_their_unit(k: nat)
    requires
        0 < k < 1024,
    ensures
        bytes_text(k) == decimal(k) + " B"@,
        bytes_text(k * 1024) == decimal(k) + "."@ + decimal(0) + " KB"@,
        bytes_text(k * 1024 * 1024) == decimal(k) + "."@ + decimal(0) + " MB"@,
        bytes_text(k * 1024 * 1024 * 1024) == decimal(k) + "."@ + decimal(0) + " GB"@,
        rate_text(k) == decimal(k) + " B/s"@,
        rate_text(k * 1024) == decimal(k) + "."@ + decimal(0) + " KiB/s"@,
        rate_text(k * 1024 * 1024) == decimal(k) + "."@ + decimal(0) + " MiB/s"@,
        rate_text(k * 1024 * 1024 * 1024) == decimal(k) + "."@ + decimal(0) + " GiB/s"@,
        megabyte_rate_text(k * 1024 * 1024) == decimal(k) + "."@ + decimal(0) + " MB/s"@,
        megabytes_text(k * 1024 * 1024) == decimal(k) + "."@ + decimal(0) + decimal(0) + " MB"@,
        memory_text(k, k * 1024 * 1024 * 1024) == decimal(k) + "/"@ + decimal(k) + "G"@,
{
    law_digits_behind_the_point_are_written(k * 1024, 0x400, 10 * k);
    law_digits_behind_the_point_are_written(k * 1024 * 1024, 0x10_0000, 10 * k);
    law_digits_behind_the_point_are_written(k * 1024 * 1024, 0x10_0000, 100 * k);
    law_digits_behind_the_point_are_written(k * 1024 * 1024 * 1024, 0x4000_0000, 10 * k);
    lemma_exact_at_53_bits(k * 1024 * 1024 * 1024);
    lemma_exact_at_53_bits(k * 1024 * 1024);
    lemma_exact_at_53_bits(k * 1024);
    lemma_exact_at_53_bits(k);
    lemma_rounded_exact(k, 1);
    lemma_rounded_exact(k, 0x4000_0000);
    assert((k * 1024 * 1024) as nat / 1024 == k * 1024);
}

/// Whole hours and billions are written without a fraction, and times below an hour in minutes.
pub proof fn law_whole_quotients_are_written(k: nat, unit: nat)
    requires
        0 < k && 0 < unit,
        unit * k < 0x20_0000_0000_0000,
    ensures
        quotient_text(unit * k, unit) == decimal(k) + "."@ + decimal(0),
        unit == 3600 ==> uptime_text(unit * k) == decimal(k) + "."@ + decimal(0) + "h"@,
        k < 3600 ==> uptime_text(k) == decimal(k / 60) + "m"@,
{
    let n = unit * k;
    lemma_exact_at_53_bits(n);
    lemma_scale_positive(n, unit);
    let s = scale(n, unit);
    assert(n * s == unit * (k * s)) by (nonlinear_arith)
        requires
            n == unit * k,
    ;
    lemma_rounded_exact(k * s, unit);
    assert(10 * (k * s) == s * (10 * k)) by (nonlinear_arith);
    law_digits_behind_the_point_are_written(k * s, s, 10 * k);
    if unit == 3600 {
        assert(unit * k >= 3600) by (nonlinear_arith)
            requires
                unit == 3600,
                k >= 1,
        ;
    }
}

} // verus!

//! UTC timestamps for token expiries: a proleptic-Gregorian calendar
//! model over seconds since 1970-01-01T00:00:00Z, and the fixed 20-byte
//! wire text `YYYY-MM-DDTHH:MM:SSZ`.
//!
//! `format_iso_secs` and `parse_iso_secs` are verified inverses through
//! the shared well-formedness predicate `iso_wf` and value function
//! `iso_secs`: formatting a timestamp yields a well-formed text whose
//! value is the timestamp, and parsing accepts exactly the well-formed
//! texts.

use vstd::prelude::*;
use vstd::utf8::encode_utf8;
use vstd::arithmetic::div_mod::lemma_fundamental_div_mod;
use crate::error::Error;
use crate::strutil::ascii_to_string;

verus! {

pub open spec fn is_leap_year(y: int) -> bool {
    y % 4 == 0 && (y % 100 != 0 || y % 400 == 0)
}

pub open spec fn days_in_year(y: int) -> int {
    if is_leap_year(y) {
        366
    } else {
        365
    }
}

pub open spec fn days_in_month(y: int, m: int) -> int {
    if m == 2 {
        if is_leap_year(y) {
            29
        } else {
            28
        }
    } else if m == 4 || m == 6 || m == 9 || m == 11 {
        30
    } else {
        31
    }
}

/// Days from 1970-01-01 to the first day of year `y`.
pub open spec fn days_before_year(y: int) -> int
    decreases y - 1970,
{
    if y <= 1970 {
        0
    } else {
        days_before_year(y - 1) + days_in_year(y - 1)
    }
}

/// Days from the first day of year `y` to the first day of its month `m`.
pub open spec fn days_before_month(y: int, m: int) -> int
    decreases m,
{
    if m <= 1 {
        0
    } else {
        days_before_month(y, m - 1) + days_in_month(y, m - 1)
    }
}

/// Seconds from the epoch to the civil instant `y-m-d h:mi:s` (UTC).
pub open spec fn civil_secs(y: int, m: int, d: int, h: int, mi: int, s: int) -> int {
    (days_before_year(y) + days_before_month(y, m) + (d - 1)) * 86400 + h * 3600 + mi * 60 + s
}

/// First timestamp past what four year digits can carry.
pub open spec fn iso_upper_secs() -> int {
    days_before_year(10000) * 86400
}

pub proof fn lemma_dby_bounds(y: int)
    requires
        1970 <= y,
    ensures
        365 * (y - 1970) <= days_before_year(y) <= 366 * (y - 1970),
    decreases y - 1970,
{
    if y > 1970 {
        lemma_dby_bounds(y - 1);
    }
}

pub proof fn lemma_dby_mono(a: int, b: int)
    requires
        1970 <= a <= b,
    ensures
        days_before_year(a) <= days_before_year(b),
    decreases b - a,
{
    if a < b {
        lemma_dby_mono(a, b - 1);
    }
}

/// The months of year `y` cover exactly its days.
pub proof fn lemma_dbm_full_year(y: int)
    ensures
        days_before_month(y, 13) == days_in_year(y),
{
    reveal_with_fuel(days_before_month, 13);
}

pub proof fn lemma_dbm_bounds(y: int, m: int)
    requires
        1 <= m <= 13,
    ensures
        0 <= days_before_month(y, m) <= 31 * (m - 1),
    decreases m,
{
    if m > 1 {
        lemma_dbm_bounds(y, m - 1);
    }
}

// ---------------------------------------------------------------------
// The 20-byte wire text `YYYY-MM-DDTHH:MM:SSZ`.
// ---------------------------------------------------------------------

pub open spec fn is_digit_byte(b: u8) -> bool {
    48 <= b <= 57
}

/// Two-digit decimal field starting at byte `i`.
pub open spec fn d2(b: Seq<u8>, i: int) -> int {
    (b[i] - 48) * 10 + (b[i + 1] - 48)
}

/// Four-digit decimal field starting at byte `i`.
pub open spec fn d4(b: Seq<u8>, i: int) -> int {
    (b[i] - 48) * 1000 + (b[i + 1] - 48) * 100 + (b[i + 2] - 48) * 10 + (b[i + 3] - 48)
}

/// Well-formed expiry text: exact layout, digit fields, and a real
/// calendar date from 1970 through 9999.
pub open spec fn iso_wf(b: Seq<u8>) -> bool {
    &&& b.len() == 20
    &&& is_digit_byte(b[0]) && is_digit_byte(b[1]) && is_digit_byte(b[2]) && is_digit_byte(b[3])
    &&& b[4] == 45  // '-'
    &&& is_digit_byte(b[5]) && is_digit_byte(b[6])
    &&& b[7] == 45  // '-'
    &&& is_digit_byte(b[8]) && is_digit_byte(b[9])
    &&& b[10] == 84  // 'T'
    &&& is_digit_byte(b[11]) && is_digit_byte(b[12])
    &&& b[13] == 58  // ':'
    &&& is_digit_byte(b[14]) && is_digit_byte(b[15])
    &&& b[16] == 58  // ':'
    &&& is_digit_byte(b[17]) && is_digit_byte(b[18])
    &&& b[19] == 90  // 'Z'
    &&& 1970 <= d4(b, 0) < 10000
    &&& 1 <= d2(b, 5) <= 12
    &&& 1 <= d2(b, 8) <= days_in_month(d4(b, 0), d2(b, 5))
    &&& d2(b, 11) < 24
    &&& d2(b, 14) < 60
    &&& d2(b, 17) < 60
}

/// Timestamp carried by a well-formed expiry text.
pub open spec fn iso_secs(b: Seq<u8>) -> int {
    civil_secs(d4(b, 0), d2(b, 5), d2(b, 8), d2(b, 11), d2(b, 14), d2(b, 17))
}

/// A well-formed text's timestamp lies below `iso_upper_secs`.
pub proof fn lemma_iso_secs_in_range(b: Seq<u8>)
    requires
        iso_wf(b),
    ensures
        0 <= iso_secs(b) < iso_upper_secs(),
{
    let y = d4(b, 0);
    let m = d2(b, 5);
    lemma_dby_bounds(y);
    lemma_dbm_bounds(y, m);
    lemma_dbm_full_year(y);
    lemma_dbm_mono(y, m + 1, 13);
    lemma_dby_mono(y + 1, 10000);
    assert(days_before_month(y, m + 1) == days_before_month(y, m) + days_in_month(y, m));
    assert(days_before_year(y + 1) == days_before_year(y) + days_in_year(y));
}

pub proof fn lemma_dbm_mono(y: int, a: int, b: int)
    requires
        1 <= a <= b,
    ensures
        days_before_month(y, a) <= days_before_month(y, b),
    decreases b - a,
{
    if a < b {
        lemma_dbm_mono(y, a, b - 1);
    }
}

// ---------------------------------------------------------------------
// Executable calendar arithmetic.
// ---------------------------------------------------------------------

fn is_leap_year_x(y: u64) -> (r: bool)
    ensures
        r == is_leap_year(y as int),
{
    y % 4 == 0 && (y % 100 != 0 || y % 400 == 0)
}

fn days_in_year_x(y: u64) -> (r: u64)
    ensures
        r == days_in_year(y as int),
{
    if is_leap_year_x(y) {
        366
    } else {
        365
    }
}

fn days_in_month_x(y: u64, m: u64) -> (r: u64)
    ensures
        r == days_in_month(y as int, m as int),
        28 <= r <= 31,
{
    if m == 2 {
        if is_leap_year_x(y) {
            29
        } else {
            28
        }
    } else if m == 4 || m == 6 || m == 9 || m == 11 {
        30
    } else {
        31
    }
}

fn days_before_year_x(y: u64) -> (r: u64)
    requires
        1970 <= y <= 10000,
    ensures
        r == days_before_year(y as int),
{
    let mut acc: u64 = 0;
    let mut i: u64 = 1970;
    while i < y
        invariant
            1970 <= i <= y <= 10000,
            acc == days_before_year(i as int),
        decreases y - i,
    {
        proof {
            lemma_dby_bounds(i as int);
        }
        acc = acc + days_in_year_x(i);
        i = i + 1;
    }
    acc
}

fn days_before_month_x(y: u64, m: u64) -> (r: u64)
    requires
        1 <= m <= 13,
    ensures
        r == days_before_month(y as int, m as int),
        r <= 372,
{
    let mut acc: u64 = 0;
    let mut i: u64 = 1;
    while i < m
        invariant
            1 <= i <= m <= 13,
            acc == days_before_month(y as int, i as int),
            acc <= 31 * (i - 1),
        decreases m - i,
    {
        acc = acc + days_in_month_x(y, i);
        i = i + 1;
    }
    acc
}

/// Reads the two-digit field at `i`; `None` when either byte is not a digit.
fn rd2(b: &[u8], i: usize) -> (r: Option<u64>)
    requires
        i + 2 <= b@.len(),
    ensures
        match r {
            Some(v) => is_digit_byte(b@[i as int]) && is_digit_byte(b@[i as int + 1]) && v == d2(
                b@,
                i as int,
            ) && v < 100,
            None => !(is_digit_byte(b@[i as int]) && is_digit_byte(b@[i as int + 1])),
        },
{
    let c0 = b[i];
    let c1 = b[i + 1];
    if 48 <= c0 && c0 <= 57 && 48 <= c1 && c1 <= 57 {
        Some(((c0 - 48) as u64) * 10 + ((c1 - 48) as u64))
    } else {
        None
    }
}

/// Reads the four-digit field at `i`; `None` when any byte is not a digit.
fn rd4(b: &[u8], i: usize) -> (r: Option<u64>)
    requires
        i + 4 <= b@.len(),
    ensures
        match r {
            Some(v) => is_digit_byte(b@[i as int]) && is_digit_byte(b@[i as int + 1])
                && is_digit_byte(b@[i as int + 2]) && is_digit_byte(b@[i as int + 3]) && v == d4(
                b@,
                i as int,
            ) && v < 10000,
            None => !(is_digit_byte(b@[i as int]) && is_digit_byte(b@[i as int + 1])
                && is_digit_byte(b@[i as int + 2]) && is_digit_byte(b@[i as int + 3])),
        },
{
    let c0 = b[i];
    let c1 = b[i + 1];
    let c2 = b[i + 2];
    let c3 = b[i + 3];
    if 48 <= c0 && c0 <= 57 && 48 <= c1 && c1 <= 57 && 48 <= c2 && c2 <= 57 && 48 <= c3 && c3 <= 57 {
        Some(
            ((c0 - 48) as u64) * 1000 + ((c1 - 48) as u64) * 100 + ((c2 - 48) as u64) * 10 + ((c3
                - 48) as u64),
        )
    } else {
        None
    }
}

/// Parses an expiry text; accepts exactly the well-formed texts and
/// returns the timestamp they carry.
pub fn parse_iso_secs(s: &str) -> (r: Result<u64, Error>)
    ensures
        match r {
            Ok(v) => iso_wf(encode_utf8(s@)) && v as int == iso_secs(encode_utf8(s@)) && (
            v as int) < iso_upper_secs(),
            Err(e) => e == Error::TokenExpNotIso && !iso_wf(encode_utf8(s@)),
        },
{
    let b = s.as_bytes();
    if b.len() != 20 {
        return Err(Error::TokenExpNotIso);
    }
    if !(b[4] == 45 && b[7] == 45 && b[10] == 84 && b[13] == 58 && b[16] == 58 && b[19] == 90) {
        return Err(Error::TokenExpNotIso);
    }
    let y = match rd4(b, 0) {
        Some(v) => v,
        None => {
            return Err(Error::TokenExpNotIso);
        },
    };
    let mo = match rd2(b, 5) {
        Some(v) => v,
        None => {
            return Err(Error::TokenExpNotIso);
        },
    };
    let d = match rd2(b, 8) {
        Some(v) => v,
        None => {
            return Err(Error::TokenExpNotIso);
        },
    };
    let h = match rd2(b, 11) {
        Some(v) => v,
        None => {
            return Err(Error::TokenExpNotIso);
        },
    };
    let mi = match rd2(b, 14) {
        Some(v) => v,
        None => {
            return Err(Error::TokenExpNotIso);
        },
    };
    let sec = match rd2(b, 17) {
        Some(v) => v,
        None => {
            return Err(Error::TokenExpNotIso);
        },
    };
    if !(1970 <= y && 1 <= mo && mo <= 12 && 1 <= d && h < 24 && mi < 60 && sec < 60) {
        return Err(Error::TokenExpNotIso);
    }
    if d > days_in_month_x(y, mo) {
        return Err(Error::TokenExpNotIso);
    }
    proof {
        lemma_dby_bounds(y as int);
        lemma_dbm_bounds(y as int, mo as int);
    }
    let days = days_before_year_x(y) + days_before_month_x(y, mo) + (d - 1);
    let v = days * 86400 + h * 3600 + mi * 60 + sec;
    proof {
        lemma_iso_secs_in_range(encode_utf8(s@));
    }
    Ok(v)
}

/// The exclusive upper bound of formattable timestamps, as a value:
/// one second past 9999-12-31T23:59:59Z.
pub fn iso_upper_secs_x() -> (r: u64)
    ensures
        r as int == iso_upper_secs(),
{
    proof {
        lemma_dby_bounds(10000);
    }
    days_before_year_x(10000) * 86400
}

/// Renders `x` as two decimal digit bytes appended to `w`.
fn push_d2(w: &mut Vec<u8>, x: u64)
    requires
        x < 100,
    ensures
        final(w)@.len() == old(w)@.len() + 2,
        forall|j: int| 0 <= j < old(w)@.len() ==> final(w)@[j] == old(w)@[j],
        is_digit_byte(final(w)@[old(w)@.len() as int]),
        is_digit_byte(final(w)@[old(w)@.len() as int + 1]),
        d2(final(w)@, old(w)@.len() as int) == x as int,
{
    let q = x / 10;
    let r = x % 10;
    proof {
        lemma_fundamental_div_mod(x as int, 10);
    }
    w.push(48 + q as u8);
    w.push(48 + r as u8);
}

/// Renders `x` as four decimal digit bytes appended to `w`.
fn push_d4(w: &mut Vec<u8>, x: u64)
    requires
        x < 10000,
    ensures
        final(w)@.len() == old(w)@.len() + 4,
        forall|j: int| 0 <= j < old(w)@.len() ==> final(w)@[j] == old(w)@[j],
        is_digit_byte(final(w)@[old(w)@.len() as int]),
        is_digit_byte(final(w)@[old(w)@.len() as int + 1]),
        is_digit_byte(final(w)@[old(w)@.len() as int + 2]),
        is_digit_byte(final(w)@[old(w)@.len() as int + 3]),
        d4(final(w)@, old(w)@.len() as int) == x as int,
{
    let q1 = x / 10;
    let r1 = x % 10;
    let q2 = q1 / 10;
    let r2 = q1 % 10;
    let q3 = q2 / 10;
    let r3 = q2 % 10;
    proof {
        lemma_fundamental_div_mod(x as int, 10);
        lemma_fundamental_div_mod(q1 as int, 10);
        lemma_fundamental_div_mod(q2 as int, 10);
    }
    w.push(48 + q3 as u8);
    w.push(48 + r3 as u8);
    w.push(48 + r2 as u8);
    w.push(48 + r1 as u8);
}

/// Renders a timestamp as its unique well-formed expiry text.
pub fn format_iso_secs(secs: u64) -> (r: String)
    requires
        (secs as int) < iso_upper_secs(),
    ensures
        iso_wf(encode_utf8(r@)),
        iso_secs(encode_utf8(r@)) == secs as int,
{
    proof {
        lemma_dby_bounds(10000);
        lemma_fundamental_div_mod(secs as int, 86400);
        vstd::arithmetic::div_mod::lemma_multiply_divide_lt(
            secs as int,
            86400,
            days_before_year(10000),
        );
    }
    let days = secs / 86400;
    let rem = secs % 86400;
    let h = rem / 3600;
    let rem2 = rem % 3600;
    let mi = rem2 / 60;
    let sec = rem2 % 60;
    proof {
        lemma_fundamental_div_mod(rem as int, 3600);
        lemma_fundamental_div_mod(rem2 as int, 60);
    }
    let mut y: u64 = 1970;
    let mut rd: u64 = days;
    loop
        invariant
            1970 <= y < 10000,
            days_before_year(y as int) + rd == days,
            (days as int) < days_before_year(10000),
        ensures
            1970 <= y < 10000,
            days_before_year(y as int) + rd == days,
            rd < days_in_year(y as int),
        decreases 10000 - y,
    {
        let dy = days_in_year_x(y);
        if rd < dy {
            break ;
        }
        proof {
            assert(days_before_year(y as int + 1) == days_before_year(y as int) + days_in_year(
                y as int,
            ));
            if y as int + 1 == 10000 {
                assert(days_before_year(10000) <= days as int);
                assert(false);
            }
        }
        rd = rd - dy;
        y = y + 1;
    }
    let mut m: u64 = 1;
    let ghost rd0 = rd as int;
    loop
        invariant
            1 <= m <= 12,
            days_before_month(y as int, m as int) + rd == rd0,
            rd0 < days_in_year(y as int),
            1970 <= y < 10000,
        ensures
            1 <= m <= 12,
            days_before_month(y as int, m as int) + rd == rd0,
            rd < days_in_month(y as int, m as int),
        decreases 12 - m,
    {
        let dm = days_in_month_x(y, m);
        if rd < dm {
            break ;
        }
        proof {
            assert(days_before_month(y as int, m as int + 1) == days_before_month(y as int, m as int)
                + days_in_month(y as int, m as int));
            if m as int + 1 == 13 {
                lemma_dbm_full_year(y as int);
                assert(false);
            }
        }
        rd = rd - dm;
        m = m + 1;
    }
    let d = rd + 1;
    let mut w: Vec<u8> = Vec::new();
    push_d4(&mut w, y);
    w.push(45);
    push_d2(&mut w, m);
    w.push(45);
    push_d2(&mut w, d);
    w.push(84);
    push_d2(&mut w, h);
    w.push(58);
    push_d2(&mut w, mi);
    w.push(58);
    push_d2(&mut w, sec);
    w.push(90);
    proof {
        assert(iso_wf(w@));
        assert(iso_secs(w@) == secs as int);
        assert(forall|i: int| 0 <= i < w@.len() ==> w@[i] < 128);
    }
    ascii_to_string(w)
}

} // verus!

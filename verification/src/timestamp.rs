//! Timestamps of the form `YYYY-MM-DD HH:MM:SS +ZZZZ`.
//!
//! Notes carry their last-touched instant as a string in this fixed format.
//! Parsing and comparison are verified here; only reading the clock itself
//! is taken on trust.

use vstd::prelude::*;
use crate::errors::{Error, ErrorKind};
use crate::text::str_chars;

verus! {

/// Relies on `time::now` and `time::strftime`: the current local time,
/// rendered as `YYYY-MM-DD HH:MM:SS +ZZZZ`.  Nothing is assumed of the
/// result, since it depends on the clock.
#[verifier::external_body]
pub fn now_timestamp() -> String {
    match time::strftime("%F %T %z", &time::now()) {
        Ok(s) => s,
        Err(_) => String::new(),
    }
}

/// A decimal digit.
pub open spec fn is_digit(c: char) -> bool {
    48 <= c as u32 <= 57
}

/// Its value.
pub open spec fn dval(c: char) -> int {
    c as u32 - 48
}

/// The two-digit number written at position `i`.
pub open spec fn num2(s: Seq<char>, i: int) -> int {
    dval(s[i]) * 10 + dval(s[i + 1])
}

/// The four-digit number written at position `i`.
pub open spec fn num4(s: Seq<char>, i: int) -> int {
    dval(s[i]) * 1000 + dval(s[i + 1]) * 100 + dval(s[i + 2]) * 10 + dval(s[i + 3])
}

/// A well-formed timestamp: exactly `YYYY-MM-DD HH:MM:SS +ZZZZ`, with the
/// month in 1..=12, the day in 1..=31, the time of day in range, and a
/// four-digit zone offset after `+` or `-`.
pub open spec fn ts_valid(s: Seq<char>) -> bool {
    &&& s.len() == 25
    &&& is_digit(s[0]) && is_digit(s[1]) && is_digit(s[2]) && is_digit(s[3])
    &&& s[4] == '-'
    &&& is_digit(s[5]) && is_digit(s[6])
    &&& s[7] == '-'
    &&& is_digit(s[8]) && is_digit(s[9])
    &&& s[10] == ' '
    &&& is_digit(s[11]) && is_digit(s[12])
    &&& s[13] == ':'
    &&& is_digit(s[14]) && is_digit(s[15])
    &&& s[16] == ':'
    &&& is_digit(s[17]) && is_digit(s[18])
    &&& s[19] == ' '
    &&& (s[20] == '+' || s[20] == '-')
    &&& is_digit(s[21]) && is_digit(s[22]) && is_digit(s[23]) && is_digit(s[24])
    &&& 1 <= num2(s, 5) <= 12
    &&& 1 <= num2(s, 8) <= 31
    &&& num2(s, 11) <= 23
    &&& num2(s, 14) <= 59
    &&& num2(s, 17) <= 59
}

/// Days since 1970-01-01 of a calendar date, by the usual era arithmetic
/// over 400-year cycles.
pub open spec fn days_from_civil(y: int, m: int, d: int) -> int {
    let yy = if m <= 2 {
        y - 1
    } else {
        y
    };
    let era = (yy + 800) / 400 - 2;
    let yoe = yy - era * 400;
    let mp = if m > 2 {
        m - 3
    } else {
        m + 9
    };
    let doy = (153 * mp + 2) / 5 + d - 1;
    let doe = yoe * 365 + yoe / 4 - yoe / 100 + doy;
    era * 146097 + doe - 719468
}

/// The instant a well-formed timestamp denotes, in seconds since the epoch:
/// its civil date and time of day, shifted by its own zone offset.
pub open spec fn ts_epoch(s: Seq<char>) -> int
    recommends
        ts_valid(s),
{
    let days = days_from_civil(num4(s, 0), num2(s, 5), num2(s, 8));
    let tod = num2(s, 11) * 3600 + num2(s, 14) * 60 + num2(s, 17);
    let off = (num2(s, 21) * 3600 + num2(s, 23) * 60) * (if s[20] == '-' {
        -1int
    } else {
        1int
    });
    days * 86400 + tod - off
}

/// The digit's value, as executable code.
fn digit_val(c: char) -> (r: u64)
    requires
        is_digit(c),
    ensures
        r == dval(c),
{
    (c as u32 - 48) as u64
}

/// Whether the character is a decimal digit.
fn digit(c: char) -> (r: bool)
    ensures
        r == is_digit(c),
{
    let v = c as u32;
    48 <= v && v <= 57
}

/// The two-digit number at position `i`.
fn read_num2(cs: &Vec<char>, i: usize) -> (r: u64)
    requires
        i + 1 < cs@.len() <= usize::MAX,
        is_digit(cs@[i as int]),
        is_digit(cs@[i + 1int]),
    ensures
        r == num2(cs@, i as int),
        r <= 99,
{
    digit_val(cs[i]) * 10 + digit_val(cs[i + 1])
}

/// Days since the epoch of a calendar date, as executable code.
fn days_from_civil_ex(y: u64, m: u64, d: u64) -> (r: i64)
    requires
        y <= 9999,
        1 <= m <= 12,
        1 <= d <= 31,
    ensures
        r == days_from_civil(y as int, m as int, d as int),
        -1100000 <= r <= 4100000,
{
    let yy: u64 = if m <= 2 {
        y + 799
    } else {
        y + 800
    };
    let era800: u64 = yy / 400;
    let yoe: u64 = yy - era800 * 400;
    proof {
        assert(yoe < 400);
    }
    let mp: u64 = if m > 2 {
        m - 3
    } else {
        m + 9
    };
    let doy: u64 = (153 * mp + 2) / 5 + d - 1;
    let doe: u64 = yoe * 365 + yoe / 4 - yoe / 100 + doy;
    let shifted: i64 = (era800 * 146097 + doe) as i64;
    shifted - 2 * 146097 - 719468
}

/// Parse a timestamp into the instant it denotes, in whole seconds since
/// the epoch.  Exactly the well-formed strings parse; anything else is an
/// `InvalidFormat` error.
pub fn parse_last_touched(lt: &str) -> (r: Result<i64, Error>)
    ensures
        r is Ok <==> ts_valid(lt@),
        r matches Ok(e) ==> e == ts_epoch(lt@),
        r is Err ==> r->Err_0.kind == ErrorKind::InvalidFormat,
{
    let cs: Vec<char> = str_chars(lt);
    if cs.len() != 25 {
        return Err(Error::new(ErrorKind::InvalidFormat, "malformed timestamp"));
    }
    let shape_ok = digit(cs[0]) && digit(cs[1]) && digit(cs[2]) && digit(cs[3]) && cs[4] == '-'
        && digit(cs[5]) && digit(cs[6]) && cs[7] == '-' && digit(cs[8]) && digit(cs[9]) && cs[10]
        == ' ' && digit(cs[11]) && digit(cs[12]) && cs[13] == ':' && digit(cs[14]) && digit(
        cs[15],
    ) && cs[16] == ':' && digit(cs[17]) && digit(cs[18]) && cs[19] == ' ' && (cs[20] == '+'
        || cs[20] == '-') && digit(cs[21]) && digit(cs[22]) && digit(cs[23]) && digit(cs[24]);
    if !shape_ok {
        return Err(Error::new(ErrorKind::InvalidFormat, "malformed timestamp"));
    }
    let y: u64 = digit_val(cs[0]) * 1000 + digit_val(cs[1]) * 100 + digit_val(cs[2]) * 10
        + digit_val(cs[3]);
    let m: u64 = read_num2(&cs, 5);
    let d: u64 = read_num2(&cs, 8);
    let h: u64 = read_num2(&cs, 11);
    let mi: u64 = read_num2(&cs, 14);
    let sec: u64 = read_num2(&cs, 17);
    let ohh: u64 = read_num2(&cs, 21);
    let omm: u64 = read_num2(&cs, 23);
    if !(1 <= m && m <= 12 && 1 <= d && d <= 31 && h <= 23 && mi <= 59 && sec <= 59) {
        return Err(Error::new(ErrorKind::InvalidFormat, "timestamp out of range"));
    }
    let days: i64 = days_from_civil_ex(y, m, d);
    let tod: i64 = (h * 3600 + mi * 60 + sec) as i64;
    let off_abs: i64 = (ohh * 3600 + omm * 60) as i64;
    let neg = cs[20] == '-';
    proof {
        assert(neg == (lt@[20] == '-'));
    }
    let off: i64 = if neg {
        -off_abs
    } else {
        off_abs
    };
    proof {
        if lt@[20] == '-' {
            assert(off == off_abs * -1int);
        } else {
            assert(off == off_abs * 1int);
        }
    }
    Ok(days * 86400 + tod - off)
}

/// Compare two timestamps by the instants they denote.  Both must be
/// well-formed; otherwise the comparison is an `InvalidFormat` error.
pub fn cmp_last_touched(a: &str, b: &str) -> (r: Result<core::cmp::Ordering, Error>)
    ensures
        r is Ok <==> (ts_valid(a@) && ts_valid(b@)),
        r matches Ok(o) ==> ((o == core::cmp::Ordering::Less <==> ts_epoch(a@) < ts_epoch(b@)) && (
        o == core::cmp::Ordering::Equal <==> ts_epoch(a@) == ts_epoch(b@)) && (o
            == core::cmp::Ordering::Greater <==> ts_epoch(a@) > ts_epoch(b@))),
        r is Err ==> r->Err_0.kind == ErrorKind::InvalidFormat,
{
    let ea = match parse_last_touched(a) {
        Ok(e) => e,
        Err(e) => {
            return Err(e);
        },
    };
    let eb = match parse_last_touched(b) {
        Ok(e) => e,
        Err(e) => {
            return Err(e);
        },
    };
    if ea < eb {
        Ok(core::cmp::Ordering::Less)
    } else if ea == eb {
        Ok(core::cmp::Ordering::Equal)
    } else {
        Ok(core::cmp::Ordering::Greater)
    }
}

} // verus!

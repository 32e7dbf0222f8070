use crate::asset::{find_byte, index_of, zero_pad};
use crate::error::ErrorKind;
use crate::json::{Json, JsonValue};
use crate::number::{
    all_digits, digits_of, digits_value, get_le, le_bytes, le_value, lemma_le_value, lemma_pow256_values,
    parse_digits, push_digits, put_le,
};
use crate::primitive::{appended, decoded, put_bytes, string_of};
use vstd::prelude::*;

verus! {

/// The year of the 400-year era of a day of that era; years begin in March.
pub open spec fn year_of_era(doe: int) -> int {
    (doe - doe / 1460 + doe / 36524 - doe / 146096) / 365
}

/// The day of the year, counted from the first of March, of a day of an era.
pub open spec fn day_of_year(doe: int) -> int {
    doe - (365 * year_of_era(doe) + year_of_era(doe) / 4 - year_of_era(doe) / 100)
}

/// Every day of an era falls in one of its 400 years, on one of the days of
/// a month of that year.
pub proof fn lemma_day_bounds(doe: int)
    requires
        0 <= doe < 146097,
    ensures
        0 <= year_of_era(doe) <= 399,
        0 <= day_of_year(doe) <= 365,
        0 <= (5 * day_of_year(doe) + 2) / 153 <= 11,
        1 <= day_of_year(doe) - (153 * ((5 * day_of_year(doe) + 2) / 153) + 2) / 5 + 1 <= 31,
{
}

/// The number of days from 1970-01-01 to a date of the Gregorian calendar.
pub open spec fn days_from_civil(y: int, m: int, d: int) -> int {
    let y2 = if m <= 2 {
        y - 1
    } else {
        y
    };
    let mp = if m > 2 {
        m - 3
    } else {
        m + 9
    };
    let yoe = y2 % 400;
    (y2 / 400) * 146097 + yoe * 365 + yoe / 4 - yoe / 100 + (153 * mp + 2) / 5 + d - 1 - 719468
}

/// The year, month and day of the Gregorian calendar that lie a number of
/// days after 1970-01-01.
pub open spec fn civil_from_days(z: int) -> (int, int, int) {
    let doe = (z + 719468) % 146097;
    let y = year_of_era(doe) + ((z + 719468) / 146097) * 400;
    let doy = day_of_year(doe);
    let mp = (5 * doy + 2) / 153;
    let m = if mp < 10 {
        mp + 3
    } else {
        mp - 9
    };
    (
        if m <= 2 {
            y + 1
        } else {
            y
        },
        m,
        doy - (153 * mp + 2) / 5 + 1,
    )
}

/// A number below 100 in two decimal digits.
pub open spec fn two_digits(n: int) -> Seq<u8> {
    seq![(48 + n / 10) as u8, (48 + n % 10) as u8]
}

/// A number below 1000 in three decimal digits.
pub open spec fn three_digits(n: int) -> Seq<u8> {
    seq![(48 + n / 100) as u8, (48 + n / 10 % 10) as u8, (48 + n % 10) as u8]
}

/// The text `YYYY-MM-DDTHH:MM:SS.mmm` of a time given in seconds since
/// 1970-01-01T00:00:00 and milliseconds.
pub open spec fn time_text(seconds: int, millis: int) -> Seq<u8> {
    let date = civil_from_days(seconds / 86400);
    let secs = seconds % 86400;
    zero_pad(digits_of(date.0 as nat), 4) + seq![45u8] + two_digits(date.1) + seq![45u8] + two_digits(date.2)
        + seq![84u8] + two_digits(secs / 3600) + seq![58u8] + two_digits(secs % 3600 / 60) + seq![58u8]
        + two_digits(secs % 60) + seq![46u8] + three_digits(millis)
}

/// The number that two decimal digits at a position write.
pub open spec fn pair_at(t: Seq<u8>, at: int) -> Option<int> {
    if 0 <= at && at + 1 < t.len() && 48 <= t[at] <= 57 && 48 <= t[at + 1] <= 57 {
        Some((t[at] - 48) * 10 + (t[at + 1] - 48))
    } else {
        None
    }
}

/// How many microseconds one unit of a fraction of `len` digits is.
pub open spec fn fraction_scale(len: int) -> int {
    if len == 1 {
        100000
    } else if len == 2 {
        10000
    } else if len == 3 {
        1000
    } else if len == 4 {
        100
    } else if len == 5 {
        10
    } else {
        1
    }
}

/// The microseconds that the part of a time text after the seconds writes:
/// nothing, or a point and one to six digits.
pub open spec fn fraction_micros(f: Seq<u8>) -> Option<int> {
    if f.len() == 0 {
        Some(0)
    } else if f[0] == 46 && 2 <= f.len() <= 7 && all_digits(f.skip(1)) {
        Some(digits_value(f.skip(1)) * fraction_scale(f.len() - 1))
    } else {
        None
    }
}

/// The seconds since 1970-01-01T00:00:00 and the microseconds that a time
/// text `YYYY-MM-DDTHH:MM:SS`, with or without a fraction, writes. The year
/// has four to six digits and the time is not before 1970.
pub open spec fn parse_time(t: Seq<u8>) -> Option<(int, int)> {
    let dash = index_of(t, 45);
    let r = t.skip(dash);
    if 4 <= dash <= 6 && all_digits(t.take(dash)) && r.len() >= 15 && r[0] == 45 && r[3] == 45 && r[6] == 84
        && r[9] == 58 && r[12] == 58 {
        match (pair_at(r, 1), pair_at(r, 4), pair_at(r, 7), pair_at(r, 10), pair_at(r, 13), fraction_micros(
            r.skip(15),
        )) {
            (Some(month), Some(day), Some(hour), Some(minute), Some(second), Some(micros)) => {
                let days = days_from_civil(digits_value(t.take(dash)) as int, month, day);
                if 1 <= month <= 12 && 1 <= day <= 31 && hour <= 23 && minute <= 59 && second <= 59 && days
                    >= 0 {
                    Some((days * 86400 + hour * 3600 + minute * 60 + second, micros))
                } else {
                    None
                }
            },
            _ => None,
        }
    } else {
        None
    }
}

/// The time that a JSON string writes.
pub open spec fn json_time(v: Json) -> Option<(int, int)> {
    match v {
        Json::Str(t) => parse_time(t),
        _ => None,
    }
}

/// `time_point`: a time text, as the microseconds since 1970 in eight bytes.
pub open spec fn encode_time_point_spec(v: Json) -> Result<Seq<u8>, ErrorKind> {
    match json_time(v) {
        Some((seconds, micros)) => if seconds * 1000000 + micros <= u64::MAX {
            Ok(le_bytes((seconds * 1000000 + micros) as nat, 8))
        } else {
            Err(ErrorKind::FieldTypeMismatch)
        },
        None => Err(ErrorKind::FieldTypeMismatch),
    }
}

/// Reads a `time_point` from the front of `input`.
pub open spec fn decode_time_point_spec(input: Seq<u8>) -> Result<(Json, nat), ErrorKind> {
    if input.len() < 8 {
        Err(ErrorKind::TruncatedInput)
    } else {
        let micros = le_value(input.take(8)) as int;
        Ok((Json::Str(time_text(micros / 1000000, micros % 1000000 / 1000)), 8))
    }
}

/// `time_point_sec`: a time text, as the seconds since 1970 in four bytes.
pub open spec fn encode_time_point_sec_spec(v: Json) -> Result<Seq<u8>, ErrorKind> {
    match json_time(v) {
        Some((seconds, _)) => if seconds <= u32::MAX {
            Ok(le_bytes(seconds as nat, 4))
        } else {
            Err(ErrorKind::FieldTypeMismatch)
        },
        None => Err(ErrorKind::FieldTypeMismatch),
    }
}

/// Reads a `time_point_sec` from the front of `input`.
pub open spec fn decode_time_point_sec_spec(input: Seq<u8>) -> Result<(Json, nat), ErrorKind> {
    if input.len() < 4 {
        Err(ErrorKind::TruncatedInput)
    } else {
        Ok((Json::Str(time_text(le_value(input.take(4)) as int, 0)), 4))
    }
}

/// The milliseconds from 1970 to 2000-01-01T00:00:00.
pub open spec fn block_epoch_millis() -> int {
    946684800000
}

/// `block_timestamp_type`: a time text from 2000 on, as the half seconds
/// since 2000 in four bytes.
pub open spec fn encode_block_timestamp_spec(v: Json) -> Result<Seq<u8>, ErrorKind> {
    match json_time(v) {
        Some((seconds, micros)) => {
            let millis = seconds * 1000 + micros / 1000;
            if millis >= block_epoch_millis() && (millis - block_epoch_millis()) / 500 <= u32::MAX {
                Ok(le_bytes(((millis - block_epoch_millis()) / 500) as nat, 4))
            } else {
                Err(ErrorKind::FieldTypeMismatch)
            }
        },
        None => Err(ErrorKind::FieldTypeMismatch),
    }
}

/// Reads a `block_timestamp_type` from the front of `input`.
pub open spec fn decode_block_timestamp_spec(input: Seq<u8>) -> Result<(Json, nat), ErrorKind> {
    if input.len() < 4 {
        Err(ErrorKind::TruncatedInput)
    } else {
        let millis = le_value(input.take(4)) * 500 + block_epoch_millis();
        Ok((Json::Str(time_text(millis / 1000, millis % 1000)), 4))
    }
}

/// The number that two decimal digits at a position write.
fn read_pair(t: &[u8], at: usize) -> (r: Option<u64>)
    requires
        at < usize::MAX,
    ensures
        match r {
            Some(n) => pair_at(t@, at as int) == Some(n as int) && n <= 99,
            None => pair_at(t@, at as int) is None,
        },
{
    if at + 1 < t.len() && 48 <= t[at] && t[at] <= 57 && 48 <= t[at + 1] && t[at + 1] <= 57 {
        Some((t[at] - 48) as u64 * 10 + (t[at + 1] - 48) as u64)
    } else {
        None
    }
}

/// The microseconds that the part of a time text after the seconds writes.
fn read_fraction(f: &[u8]) -> (r: Option<u64>)
    ensures
        match r {
            Some(n) => fraction_micros(f@) == Some(n as int) && n <= 999999,
            None => fraction_micros(f@) is None,
        },
{
    if f.len() == 0 {
        return Some(0);
    }
    if f[0] != 46 || f.len() < 2 || f.len() > 7 {
        return None;
    }
    let digits = vstd::slice::slice_subrange(f, 1, f.len());
    assert(digits@ =~= f@.skip(1));
    let value = match parse_digits(digits) {
        Some(v) => v,
        None => {
            proof {
                if all_digits(digits@) {
                    lemma_digits_bound(digits@);
                    reveal_with_fuel(pow10, 8);
                }
            }
            return None;
        },
    };
    proof {
        lemma_digits_bound(digits@);
        reveal_with_fuel(pow10, 8);
    }
    let scale: u64 = if digits.len() == 1 {
        100000
    } else if digits.len() == 2 {
        10000
    } else if digits.len() == 3 {
        1000
    } else if digits.len() == 4 {
        100
    } else if digits.len() == 5 {
        10
    } else {
        1
    };
    Some(value as u64 * scale)
}

/// Ten to the power `k`.
pub open spec fn pow10(k: nat) -> nat
    decreases k,
{
    if k == 0 {
        1
    } else {
        10 * pow10((k - 1) as nat)
    }
}

/// A run of digits writes a number below ten to the power of its length.
pub proof fn lemma_digits_bound(ds: Seq<u8>)
    requires
        all_digits(ds),
    ensures
        digits_value(ds) < pow10(ds.len()),
        ds.len() <= 6 ==> pow10(ds.len()) * fraction_scale(ds.len() as int) <= 1000000,
    decreases ds.len(),
{
    reveal_with_fuel(pow10, 8);
    if ds.len() > 0 {
        assert(all_digits(ds.drop_last())) by {
            assert forall|i: int| 0 <= i < ds.drop_last().len() implies 48 <= #[trigger] ds.drop_last()[i]
                <= 57 by {
                assert(ds.drop_last()[i] == ds[i]);
            }
        }
        lemma_digits_bound(ds.drop_last());
        assert(48 <= ds.last() <= 57) by {
            assert(ds.last() == ds[ds.len() - 1]);
        }
    }
}

/// The days from 1970-01-01 to a date, where it is not before that day.
fn days_to(y: u64, m: u64, d: u64) -> (r: Option<u64>)
    requires
        y <= 999999,
        1 <= m <= 12,
        1 <= d <= 31,
    ensures
        match r {
            Some(days) => days_from_civil(y as int, m as int, d as int) == days && days <= 365500000,
            None => days_from_civil(y as int, m as int, d as int) < 0,
        },
{
    if y == 0 {
        return None;
    }
    let y2: u64 = if m <= 2 {
        y - 1
    } else {
        y
    };
    let mp: u64 = if m > 2 {
        m - 3
    } else {
        m + 9
    };
    let yoe: u64 = y2 % 400;
    let total: u64 = (y2 / 400) * 146097 + yoe * 365 + yoe / 4 - yoe / 100 + (153 * mp + 2) / 5 + d - 1;
    if total < 719468 {
        None
    } else {
        Some(total - 719468)
    }
}

/// Reads a time text: the seconds since 1970 and the microseconds.
fn read_time(t: &[u8]) -> (r: Option<(u64, u64)>)
    ensures
        match r {
            Some((seconds, micros)) => parse_time(t@) == Some((seconds as int, micros as int)) && seconds
                <= 31579200086399 && micros <= 999999,
            None => parse_time(t@) is None,
        },
{
    let dash = find_byte(t, 45);
    if dash < 4 || dash > 6 || t.len() - dash < 15 {
        return None;
    }
    let year_digits = vstd::slice::slice_subrange(t, 0, dash);
    let r = vstd::slice::slice_subrange(t, dash, t.len());
    assert(year_digits@ =~= t@.take(dash as int));
    assert(r@ =~= t@.skip(dash as int));
    if r[0] != 45 || r[3] != 45 || r[6] != 84 || r[9] != 58 || r[12] != 58 {
        return None;
    }
    let year = match parse_digits(year_digits) {
        Some(y) => y,
        None => {
            proof {
                if all_digits(year_digits@) {
                    lemma_digits_bound(year_digits@);
                    reveal_with_fuel(pow10, 8);
                }
            }
            return None;
        },
    };
    proof {
        lemma_digits_bound(year_digits@);
        reveal_with_fuel(pow10, 8);
    }
    let month = match read_pair(r, 1) {
        Some(x) => x,
        None => {
            return None;
        },
    };
    let day = match read_pair(r, 4) {
        Some(x) => x,
        None => {
            return None;
        },
    };
    let hour = match read_pair(r, 7) {
        Some(x) => x,
        None => {
            return None;
        },
    };
    let minute = match read_pair(r, 10) {
        Some(x) => x,
        None => {
            return None;
        },
    };
    let second = match read_pair(r, 13) {
        Some(x) => x,
        None => {
            return None;
        },
    };
    let fraction = vstd::slice::slice_subrange(r, 15, r.len());
    assert(fraction@ =~= r@.skip(15));
    let micros = match read_fraction(fraction) {
        Some(x) => x,
        None => {
            return None;
        },
    };
    if month < 1 || month > 12 || day < 1 || day > 31 || hour > 23 || minute > 59 || second > 59 {
        return None;
    }
    match days_to(year as u64, month, day) {
        Some(days) => Some((days * 86400 + hour * 3600 + minute * 60 + second, micros)),
        None => None,
    }
}

/// The time that a JSON string writes.
fn time_of(v: &JsonValue) -> (r: Option<(u64, u64)>)
    ensures
        match r {
            Some((seconds, micros)) => json_time(v@) == Some((seconds as int, micros as int)) && seconds
                <= 31579200086399 && micros <= 999999,
            None => json_time(v@) is None,
        },
{
    match string_of(v) {
        Some(t) => read_time(t.as_slice()),
        None => None,
    }
}

/// Appends a number below 100 in two decimal digits.
fn push_two(out: &mut Vec<u8>, n: u64)
    requires
        n <= 99,
    ensures
        final(out)@ =~= old(out)@ + two_digits(n as int),
{
    out.push(48 + (n / 10) as u8);
    out.push(48 + (n % 10) as u8);
}

/// The text of a time given in seconds since 1970 and milliseconds.
#[verifier::rlimit(40)]
fn format_time(seconds: u64, millis: u64) -> (r: Vec<u8>)
    requires
        seconds <= 18446744073709,
        millis <= 999,
    ensures
        r@ == time_text(seconds as int, millis as int),
{
    let z: u64 = seconds / 86400 + 719468;
    let secs: u64 = seconds % 86400;
    let doe: u64 = z % 146097;
    proof {
        lemma_day_bounds(doe as int);
    }
    let yoe: u64 = (doe - doe / 1460 + doe / 36524 - doe / 146096) / 365;
    let doy: u64 = doe - (365 * yoe + yoe / 4 - yoe / 100);
    let mp: u64 = (5 * doy + 2) / 153;
    let day: u64 = doy - (153 * mp + 2) / 5 + 1;
    let month: u64 = if mp < 10 {
        mp + 3
    } else {
        mp - 9
    };
    let y: u64 = yoe + (z / 146097) * 400;
    let year: u64 = if month <= 2 {
        y + 1
    } else {
        y
    };
    let mut digits: Vec<u8> = Vec::new();
    push_digits(&mut digits, year as u128);
    let mut out: Vec<u8> = Vec::new();
    let mut k: usize = digits.len();
    while k < 4
        invariant
            digits@.len() <= k,
            k <= 4 || k == digits@.len(),
            out@ == Seq::new((k - digits@.len()) as nat, |i: int| 48u8),
        decreases 4 - k,
    {
        out.push(48);
        assert(out@ =~= Seq::new((k + 1 - digits@.len()) as nat, |i: int| 48u8));
        k += 1;
    }
    put_bytes(&mut out, digits.as_slice());
    assert(out@ =~= zero_pad(digits_of(year as nat), 4));
    out.push(45);
    push_two(&mut out, month);
    out.push(45);
    push_two(&mut out, day);
    out.push(84);
    push_two(&mut out, secs / 3600);
    out.push(58);
    push_two(&mut out, secs % 3600 / 60);
    out.push(58);
    push_two(&mut out, secs % 60);
    out.push(46);
    out.push(48 + (millis / 100) as u8);
    out.push(48 + (millis / 10 % 10) as u8);
    out.push(48 + (millis % 10) as u8);
    assert(out@ =~= time_text(seconds as int, millis as int));
    out
}

/// Appends a `time_point` read from a JSON value.
pub fn encode_time_point(out: &mut Vec<u8>, v: &JsonValue) -> (r: Result<(), ErrorKind>)
    ensures
        appended(old(out)@, final(out)@, r, encode_time_point_spec(v@)),
{
    match time_of(v) {
        Some((seconds, micros)) => {
            let total: u128 = seconds as u128 * 1000000 + micros as u128;
            if total > 0xffff_ffff_ffff_ffff {
                return Err(ErrorKind::FieldTypeMismatch);
            }
            put_le(out, total, 8);
            Ok(())
        },
        None => Err(ErrorKind::FieldTypeMismatch),
    }
}

/// Reads a `time_point` at `pos`.
pub fn decode_time_point(bytes: &[u8], pos: usize) -> (r: Result<(JsonValue, usize), ErrorKind>)
    requires
        pos <= bytes.len(),
    ensures
        decoded(r, pos, decode_time_point_spec(bytes@.skip(pos as int))),
        r matches Ok((_, next)) ==> next <= bytes.len(),
{
    if bytes.len() - pos < 8 {
        return Err(ErrorKind::TruncatedInput);
    }
    let micros = get_le(bytes, pos, 8);
    proof {
        assert(bytes@.skip(pos as int).take(8) =~= bytes@.subrange(pos as int, pos + 8));
        lemma_pow256_values();
        lemma_le_value(bytes@.subrange(pos as int, pos + 8));
    }
    let text = format_time((micros / 1000000) as u64, (micros % 1000000 / 1000) as u64);
    Ok((JsonValue::Str(text), pos + 8))
}

/// Appends a `time_point_sec` read from a JSON value.
pub fn encode_time_point_sec(out: &mut Vec<u8>, v: &JsonValue) -> (r: Result<(), ErrorKind>)
    ensures
        appended(old(out)@, final(out)@, r, encode_time_point_sec_spec(v@)),
{
    match time_of(v) {
        Some((seconds, _)) => {
            if seconds > 0xffff_ffff {
                return Err(ErrorKind::FieldTypeMismatch);
            }
            put_le(out, seconds as u128, 4);
            Ok(())
        },
        None => Err(ErrorKind::FieldTypeMismatch),
    }
}

/// Reads a `time_point_sec` at `pos`.
pub fn decode_time_point_sec(bytes: &[u8], pos: usize) -> (r: Result<(JsonValue, usize), ErrorKind>)
    requires
        pos <= bytes.len(),
    ensures
        decoded(r, pos, decode_time_point_sec_spec(bytes@.skip(pos as int))),
        r matches Ok((_, next)) ==> next <= bytes.len(),
{
    if bytes.len() - pos < 4 {
        return Err(ErrorKind::TruncatedInput);
    }
    let seconds = get_le(bytes, pos, 4);
    proof {
        assert(bytes@.skip(pos as int).take(4) =~= bytes@.subrange(pos as int, pos + 4));
        lemma_pow256_values();
        lemma_le_value(bytes@.subrange(pos as int, pos + 4));
    }
    let text = format_time(seconds as u64, 0);
    Ok((JsonValue::Str(text), pos + 4))
}

/// Appends a `block_timestamp_type` read from a JSON value.
pub fn encode_block_timestamp(out: &mut Vec<u8>, v: &JsonValue) -> (r: Result<(), ErrorKind>)
    ensures
        appended(old(out)@, final(out)@, r, encode_block_timestamp_spec(v@)),
{
    match time_of(v) {
        Some((seconds, micros)) => {
            let millis: u64 = seconds * 1000 + micros / 1000;
            if millis < 946684800000 {
                return Err(ErrorKind::FieldTypeMismatch);
            }
            let slot: u64 = (millis - 946684800000) / 500;
            if slot > 0xffff_ffff {
                return Err(ErrorKind::FieldTypeMismatch);
            }
            put_le(out, slot as u128, 4);
            Ok(())
        },
        None => Err(ErrorKind::FieldTypeMismatch),
    }
}

/// Reads a `block_timestamp_type` at `pos`.
pub fn decode_block_timestamp(bytes: &[u8], pos: usize) -> (r: Result<(JsonValue, usize), ErrorKind>)
    requires
        pos <= bytes.len(),
    ensures
        decoded(r, pos, decode_block_timestamp_spec(bytes@.skip(pos as int))),
        r matches Ok((_, next)) ==> next <= bytes.len(),
{
    if bytes.len() - pos < 4 {
        return Err(ErrorKind::TruncatedInput);
    }
    let slot = get_le(bytes, pos, 4);
    proof {
        assert(bytes@.skip(pos as int).take(4) =~= bytes@.subrange(pos as int, pos + 4));
        lemma_pow256_values();
        lemma_le_value(bytes@.subrange(pos as int, pos + 4));
    }
    let millis: u64 = slot as u64 * 500 + 946684800000;
    let text = format_time(millis / 1000, millis % 1000);
    Ok((JsonValue::Str(text), pos + 4))
}

} // verus!

//! Reading what the media tool and the image tags report about a file:
//! dimensions and creation time from the tool's diagnostics, the shoot time
//! from a tag, and the timestamp kept on the file itself.

use crate::decimal::{decimal, decimal_chars, parse_decimal, parse_u32, parse_u64};
use crate::metadata::ProbeInfo;
use crate::text::{
    chars_of, contains, contains_text, find_from, first_at, leading_space, scan, scan_from,
    skip_space, slice_of, string_of, strip_char, stripped_of, trim, trimmed, Scan,
};
use chrono::{DateTime, NaiveDateTime, TimeZone, Utc};
use vstd::prelude::*;

verus! {

/// The seconds since the epoch, in UTC, of the date and time that `text`
/// holds in the layout `format`; none where `text` does not follow it.
pub uninterp spec fn naive_datetime_seconds(text: Seq<char>, format: Seq<char>) -> Option<i64>;

/// The seconds since the epoch of the RFC 3339 date and time that `text`
/// is; none where it is not one.
pub uninterp spec fn rfc3339_seconds(text: Seq<char>) -> Option<i64>;

/// Trusted: `NaiveDateTime::parse_from_str` reads `text` by `format`; the
/// result, taken as UTC, is turned into seconds since the epoch. The outcome
/// depends on the two texts alone and is named `naive_datetime_seconds`.
#[verifier::external_body]
fn parse_naive_datetime(text: &str, format: &str) -> (r: Option<i64>)
    ensures
        r == naive_datetime_seconds(text@, format@),
{
    match NaiveDateTime::parse_from_str(text, format) {
        Ok(t) => Some(Utc.from_utc_datetime(&t).timestamp()),
        Err(_) => None,
    }
}

/// Trusted: `DateTime::parse_from_rfc3339` reads `text`; the result is
/// turned into seconds since the epoch. The outcome depends on the text
/// alone and is named `rfc3339_seconds`.
#[verifier::external_body]
fn parse_rfc3339(text: &str) -> (r: Option<i64>)
    ensures
        r == rfc3339_seconds(text@),
{
    match DateTime::parse_from_rfc3339(text) {
        Ok(t) => Some(t.timestamp()),
        Err(_) => None,
    }
}

/// A count of seconds as the packed form takes it: the same 64 bits read as
/// an unsigned number.
pub open spec fn epoch_seconds(t: i64) -> u64 {
    t as u64
}

/// The shoot time that parsed seconds give.
pub open spec fn shoot_of(parsed: Option<i64>) -> Option<u64> {
    match parsed {
        Some(t) => Some(epoch_seconds(t)),
        None => None,
    }
}

/// The shoot time that parsed seconds give.
pub fn shoot_from_seconds(parsed: Option<i64>) -> (r: Option<u64>)
    ensures
        r == shoot_of(parsed),
{
    match parsed {
        Some(t) => Some(
            #[verifier::truncate]
            (t as u64),
        ),
        None => None,
    }
}

/// The text of a tag once the padding is dropped: first the NUL
/// characters at both ends, then the whitespace at both ends.
pub open spec fn tag_text(raw: Seq<char>) -> Seq<char> {
    trimmed(stripped_of(raw, '\0'))
}

/// The shoot time that the image tags give: that of the tag for the
/// original date and time, else that of the plain date and time tag. The
/// first tag that is there decides; it is read as `YYYY:MM:DD HH:MM:SS` in
/// UTC.
pub open spec fn tag_shoot(original: Option<Seq<char>>, fallback: Option<Seq<char>>) -> Option<
    u64,
> {
    let raw = if original is Some {
        original
    } else {
        fallback
    };
    match raw {
        Some(text) => shoot_of(naive_datetime_seconds(tag_text(text), "%Y:%m:%d %H:%M:%S"@)),
        None => None,
    }
}

/// The shoot time that the image tags give.
pub fn datetime_original(original: Option<&str>, fallback: Option<&str>) -> (r: Option<u64>)
    ensures
        r == tag_shoot(
            match original {
                Some(t) => Some(t@),
                None => None,
            },
            match fallback {
                Some(t) => Some(t@),
                None => None,
            },
        ),
{
    let raw: Option<&str> = if original.is_some() {
        original
    } else {
        fallback
    };
    match raw {
        Some(text) => {
            let chars = chars_of(text);
            let bare = strip_char(&chars, '\0');
            let clean = trim(&bare);
            let clean_text = string_of(&clean);
            shoot_from_seconds(parse_naive_datetime(clean_text.as_str(), "%Y:%m:%d %H:%M:%S"))
        },
        None => None,
    }
}

/// The timestamp that a value kept on the file stands for: its decimal
/// text, nothing around it.
pub open spec fn embedded_timestamp(value: Seq<char>) -> Option<u64> {
    match parse_decimal(value, u64::MAX as nat) {
        Some(v) => Some(v as u64),
        None => None,
    }
}

/// Reads the timestamp kept on a file from the value stored there.
pub fn read_embedded_timestamp(value: &str) -> (r: Option<u64>)
    ensures
        r == embedded_timestamp(value@),
{
    let chars = chars_of(value);
    parse_u64(&chars)
}

/// The value to store on a file for `timestamp`.
pub fn write_embedded_timestamp(timestamp: u64) -> (value: String)
    ensures
        value@ == decimal(timestamp as nat),
{
    let chars = decimal_chars(timestamp as u128);
    string_of(&chars)
}

/// What `str::parse::<u32>` gives.
pub open spec fn dimension(s: Seq<char>) -> Option<u32> {
    match parse_decimal(s, u32::MAX as nat) {
        Some(v) => Some(v as u32),
        None => None,
    }
}

/// Whether the size of the picture is written at `p`: a comma and a space,
/// then digits, an `x`, and digits again.
pub open spec fn size_at(line: Seq<char>, p: int) -> bool {
    let x = scan_from(line, p + 2, Scan::NonDigit);
    let e = scan_from(line, x + 1, Scan::NonDigit);
    &&& 0 <= p && p + 2 < line.len()
    &&& line[p] == ',' && line[p + 1] == ' '
    &&& p + 2 < x < line.len() && line[x] == 'x'
    &&& x + 1 < e
}

/// The first position at or after `p` where the size is written, or -1.
pub open spec fn size_from(line: Seq<char>, p: int) -> int
    decreases line.len() - p,
{
    if p < 0 || p >= line.len() {
        -1
    } else if size_at(line, p) {
        p
    } else {
        size_from(line, p + 1)
    }
}

/// The dimensions after one line of diagnostics. Only a line that names a
/// video stream counts, and in it the first place where the size is
/// written: the run of digits that ends at the `x` is the width, the run of
/// digits after the `x` is the height. A number too large for 32 bits
/// counts as unknown.
pub open spec fn line_dims(line: Seq<char>, acc: ProbeInfo) -> ProbeInfo {
    if contains_text(line, "Stream"@) && contains_text(line, "Video:"@) {
        let p = size_from(line, 0);
        let x = scan_from(line, p + 2, Scan::NonDigit);
        let e = scan_from(line, x + 1, Scan::NonDigit);
        if p < 0 {
            acc
        } else {
            ProbeInfo {
                width: dimension(line.subrange(p + 2, x)),
                height: dimension(line.subrange(x + 1, e)),
                ..acc
            }
        }
    } else {
        acc
    }
}

/// The text of the creation time that a line of diagnostics gives: what
/// follows `creation_time`, after whitespace and one `:` or `=`, without
/// the whitespace around it. A line without the key gives none.
pub open spec fn time_text(line: Seq<char>) -> Option<Seq<char>> {
    let c = first_at(line, "creation_time"@, 0);
    if c < 0 || c + 13 > line.len() {
        None
    } else {
        let rest = line.subrange(c + 13, line.len() as int);
        let lo = leading_space(rest, 0);
        let from = if lo < rest.len() && (rest[lo] == ':' || rest[lo] == '=') {
            lo + 1
        } else {
            lo
        };
        Some(trimmed(rest.subrange(from, rest.len() as int)))
    }
}

/// The creation time after one line of diagnostics: where the line gives
/// one that is an RFC 3339 date and time, that; else what was known.
pub open spec fn line_time(line: Seq<char>, acc: ProbeInfo) -> ProbeInfo {
    match time_text(line) {
        Some(text) => with_time(acc, rfc3339_seconds(text)),
        None => acc,
    }
}

/// What is known once a creation time was read, or could not be read.
pub open spec fn with_time(acc: ProbeInfo, parsed: Option<i64>) -> ProbeInfo {
    match parsed {
        Some(t) => ProbeInfo { shoot: Some(epoch_seconds(t)), ..acc },
        None => acc,
    }
}

/// What is known after one line of diagnostics.
pub open spec fn after_line(line: Seq<char>, parse_time: bool, acc: ProbeInfo) -> ProbeInfo {
    let dims = line_dims(line, acc);
    if parse_time {
        line_time(line, dims)
    } else {
        dims
    }
}

/// The line that starts at `i` and ends before `end`, without the carriage
/// return of a `\r\n` ending.
pub open spec fn line_at(s: Seq<char>, i: int, end: int) -> Seq<char> {
    if end < s.len() && i < end && s[end - 1] == '\r' {
        s.subrange(i, end - 1)
    } else {
        s.subrange(i, end)
    }
}

/// What is known after the lines of `s` from position `i` on.
pub open spec fn probe_from(s: Seq<char>, i: int, parse_time: bool, acc: ProbeInfo) -> ProbeInfo
    decreases s.len() + 1 - i,
{
    if i < 0 || i >= s.len() {
        acc
    } else {
        let end = scan_from(s, i, Scan::Is('\n'));
        if end < i || end > s.len() {
            acc
        } else {
            probe_from(s, end + 1, parse_time, after_line(line_at(s, i, end), parse_time, acc))
        }
    }
}

/// What the diagnostics of the media tool say, line by line, a later line
/// overriding an earlier one.
pub open spec fn probe_result(stderr: Seq<char>, parse_time: bool) -> ProbeInfo {
    probe_from(stderr, 0, parse_time, ProbeInfo { shoot: None, width: None, height: None })
}

/// What is known once a creation time was read from a line, or could not
/// be read: the time that was read replaces the one known before.
pub fn with_creation_time(acc: ProbeInfo, parsed: Option<i64>) -> (r: ProbeInfo)
    ensures
        r == with_time(acc, parsed),
{
    match shoot_from_seconds(parsed) {
        Some(t) => ProbeInfo { shoot: Some(t), width: acc.width, height: acc.height },
        None => acc,
    }
}

/// The first place of a line where the size is written: where it starts,
/// where its `x` stands, and where its height ends.
fn find_size(line: &Vec<char>) -> (r: Option<(usize, usize, usize)>)
    ensures
        match r {
            Some((p, x, e)) => {
                &&& size_from(line@, 0) == p
                &&& x == scan_from(line@, p + 2, Scan::NonDigit)
                &&& e == scan_from(line@, x + 1, Scan::NonDigit)
                &&& p + 2 < x && x + 1 < e && e <= line.len()
            },
            None => size_from(line@, 0) == -1,
        },
{
    let mut p: usize = 0;
    while p < line.len()
        invariant
            p <= line.len(),
            size_from(line@, 0) == size_from(line@, p as int),
        decreases line.len() - p,
    {
        if line[p] == ',' && line.len() - p > 2 && line[p + 1] == ' ' {
            let x: usize = scan(line, p + 2, Scan::NonDigit);
            if x > p + 2 && x < line.len() && line[x] == 'x' {
                let e: usize = scan(line, x + 1, Scan::NonDigit);
                if e > x + 1 {
                    return Some((p, x, e));
                }
            }
        }
        p += 1;
    }
    None
}

/// The dimensions after one line of diagnostics.
fn dims_of_line(line: &Vec<char>, acc: ProbeInfo) -> (r: ProbeInfo)
    ensures
        r == line_dims(line@, acc),
{
    let stream = chars_of("Stream");
    let video = chars_of("Video:");
    if !(contains(line, &stream) && contains(line, &video)) {
        return acc;
    }
    match find_size(line) {
        Some((p, x, e)) => {
            let width = parse_u32(&slice_of(line, p + 2, x));
            let height = parse_u32(&slice_of(line, x + 1, e));
            ProbeInfo { shoot: acc.shoot, width, height }
        },
        None => acc,
    }
}

/// The text of the creation time that a line of diagnostics gives.
fn time_text_of(line: &Vec<char>) -> (r: Option<Vec<char>>)
    ensures
        match r {
            Some(t) => time_text(line@) == Some(t@),
            None => time_text(line@) is None,
        },
{
    let key = chars_of("creation_time");
    proof {
        reveal_strlit("creation_time");
    }
    let c: usize = match find_from(line, &key, 0) {
        Some(c) => c,
        None => {
            return None;
        },
    };
    let rest = slice_of(line, c + 13, line.len());
    let lo: usize = skip_space(&rest, 0);
    let from: usize = if lo < rest.len() && (rest[lo] == ':' || rest[lo] == '=') {
        lo + 1
    } else {
        lo
    };
    let value = slice_of(&rest, from, rest.len());
    Some(trim(&value))
}

/// The creation time after one line of diagnostics.
fn time_of_line(line: &Vec<char>, acc: ProbeInfo) -> (r: ProbeInfo)
    ensures
        r == line_time(line@, acc),
{
    match time_text_of(line) {
        Some(clean) => {
            let text = string_of(&clean);
            with_creation_time(acc, parse_rfc3339(text.as_str()))
        },
        None => acc,
    }
}

/// Reads dimensions and creation time from the diagnostics of the media
/// tool. The creation time is looked for only where `parse_creation_time`
/// asks for it.
pub fn probe(stderr: &str, parse_creation_time: bool) -> (r: ProbeInfo)
    ensures
        r == probe_result(stderr@, parse_creation_time),
{
    let s = chars_of(stderr);
    let mut acc = ProbeInfo { shoot: None, width: None, height: None };
    let mut i: usize = 0;
    while i < s.len()
        invariant
            s@ == stderr@,
            probe_result(stderr@, parse_creation_time) == probe_from(
                s@,
                i as int,
                parse_creation_time,
                acc,
            ),
        decreases s.len() - i,
    {
        let end: usize = scan(&s, i, Scan::Is('\n'));
        let stop: usize = if end < s.len() && i < end && s[end - 1] == '\r' {
            end - 1
        } else {
            end
        };
        let line = slice_of(&s, i, stop);
        assert(line@ == line_at(s@, i as int, end as int));
        let dims = dims_of_line(&line, acc);
        acc =
        if parse_creation_time {
            time_of_line(&line, dims)
        } else {
            dims
        };
        if end >= s.len() {
            assert(probe_from(s@, end + 1, parse_creation_time, acc) == acc);
            return acc;
        }
        i = end + 1;
    }
    acc
}

} // verus!

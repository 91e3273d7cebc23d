//! Parser for the encoder's textual output: stats lines with a `time=`
//! field, machine-readable `out_time=` lines, and the `Duration:` banner.
//!
//! Times are handled as whole milliseconds. A time string has the shape
//! `H:MM:SS.fff`: three colon-separated components, the first two plain
//! digit runs, the third a digit run with an optional dot and fraction.
//! Its value is `H * 3600000 + M * 60000 + S * 1000` plus the fraction
//! read to millisecond precision (further fractional digits are dropped).
//! Malformed input is never an error, only an absent value.

use vstd::prelude::*;

verus! {

use crate::text::all_digits;
use crate::text::contains_seq;
use crate::text::digit_val;
use crate::text::digits_value;
use crate::text::first_match;
use crate::text::is_digit_char;
use crate::text::is_ws;
use crate::text::is_ws_char;
use crate::text::lemma_first_match_contains;
use crate::text::lemma_skip_ws;
use crate::text::lemma_skip_ws_end;
use crate::text::lemma_take_until;
use crate::text::match_at;
use crate::text::parse_u64_digits;
use crate::text::parse_u64_spec;
use crate::text::scan_digits;
use crate::text::scan_until;
use crate::text::skip_ws;
use crate::text::skip_ws_end;
use crate::text::starts_with;
use crate::text::stop_ws;
use crate::text::stop_ws_or_x;
use crate::text::take_until;
use crate::text::token_after;
use crate::text::trim_spec;
use crate::text::find_sub;
use vstd::string::StrSliceExecFns;

/// Shape of a seconds-like component: a nonempty digit run up to `d`,
/// optionally followed by a dot at `d` and a digit run to the end.
/// `d` is the position of the dot, or the length when there is none.
pub open spec fn sec_shape(tok: Seq<char>, d: int) -> bool {
    &&& 1 <= d <= tok.len()
    &&& all_digits(tok.subrange(0, d))
    &&& (d < tok.len() ==> tok[d] == '.' && all_digits(
        tok.subrange(d + 1, tok.len() as int),
    ))
}

/// Milliseconds contributed by up to three fractional digits; digits past
/// the third are below a millisecond and are dropped.
pub open spec fn frac_milli(fd: Seq<char>) -> nat {
    (if fd.len() > 0 {
        digit_val(fd[0]) * 100
    } else {
        0
    }) + (if fd.len() > 1 {
        digit_val(fd[1]) * 10
    } else {
        0
    }) + (if fd.len() > 2 {
        digit_val(fd[2])
    } else {
        0
    })
}

/// Milliseconds denoted by a seconds-like component with dot position `d`.
pub open spec fn sec_part_ms(tok: Seq<char>, d: int) -> nat {
    digits_value(tok.subrange(0, d)) * 1000 + frac_milli(
        if d < tok.len() {
            tok.subrange(d + 1, tok.len() as int)
        } else {
            Seq::empty()
        },
    )
}

/// A decimal token (`25`, `1.25`, `0.835`) read in thousandths.
pub open spec fn parse_milli_spec(tok: Seq<char>) -> Option<u64> {
    if exists|d: int| #[trigger] sec_shape(tok, d) {
        let d = choose|d: int| sec_shape(tok, d);
        if sec_part_ms(tok, d) <= u64::MAX {
            Some(sec_part_ms(tok, d) as u64)
        } else {
            None
        }
    } else {
        None
    }
}

/// Positions `i < j` of the two colons of an `H:MM:SS.fff` string: digit
/// runs for hours and minutes, a seconds-like component after `j`.
pub open spec fn time_shape(s: Seq<char>, i: int, j: int) -> bool {
    &&& 1 <= i
    &&& i + 1 < j
    &&& j + 1 < s.len()
    &&& s[i] == ':'
    &&& s[j] == ':'
    &&& all_digits(s.subrange(0, i))
    &&& all_digits(s.subrange(i + 1, j))
    &&& exists|d: int| #[trigger] sec_shape(s.subrange(j + 1, s.len() as int), d)
}

pub open spec fn valid_time(s: Seq<char>) -> bool {
    exists|i: int, j: int| time_shape(s, i, j)
}

/// Total milliseconds of a time string with colons at `i` and `j`:
/// hours times 3600000, plus minutes times 60000, plus the seconds part.
pub open spec fn time_ms_at(s: Seq<char>, i: int, j: int) -> nat {
    let sec = s.subrange(j + 1, s.len() as int);
    let d = choose|d: int| sec_shape(sec, d);
    digits_value(s.subrange(0, i)) * 3600000 + digits_value(s.subrange(i + 1, j)) * 60000
        + sec_part_ms(sec, d)
}

pub open spec fn time_value_ms(s: Seq<char>) -> nat {
    let (i, j) = choose|i: int, j: int| time_shape(s, i, j);
    time_ms_at(s, i, j)
}

/// What parsing a time string yields: its millisecond value, if the string
/// is well shaped and the value representable.
pub open spec fn parse_time_spec(s: Seq<char>) -> Option<u64> {
    if valid_time(s) && time_value_ms(s) <= u64::MAX {
        Some(time_value_ms(s) as u64)
    } else {
        None
    }
}

pub proof fn lemma_sec_shape_unique(tok: Seq<char>, d1: int, d2: int)
    requires
        sec_shape(tok, d1),
        sec_shape(tok, d2),
    ensures
        d1 == d2,
{
    if d1 < d2 {
        assert(is_digit_char(tok.subrange(0, d2)[d1]));
    }
    if d2 < d1 {
        assert(is_digit_char(tok.subrange(0, d1)[d2]));
    }
}

pub proof fn lemma_time_shape_unique(s: Seq<char>, i1: int, j1: int, i2: int, j2: int)
    requires
        time_shape(s, i1, j1),
        time_shape(s, i2, j2),
    ensures
        i1 == i2,
        j1 == j2,
{
    if i1 < i2 {
        assert(is_digit_char(s.subrange(0, i2)[i1]));
    }
    if i2 < i1 {
        assert(is_digit_char(s.subrange(0, i1)[i2]));
    }
    if j1 < j2 {
        assert(is_digit_char(s.subrange(i2 + 1, j2)[j1 - i2 - 1]));
    }
    if j2 < j1 {
        assert(is_digit_char(s.subrange(i1 + 1, j1)[j2 - i1 - 1]));
    }
}

/// No seconds-like shape exists when the leading digit run is empty or is
/// followed by something other than a dot.
pub proof fn lemma_no_sec_shape_head(tok: Seq<char>, d: int)
    requires
        0 <= d <= tok.len(),
        forall|k: int| 0 <= k < d ==> is_digit_char(#[trigger] tok[k]),
        d < tok.len() ==> !is_digit_char(tok[d]),
        d == 0 || (d < tok.len() && tok[d] != '.'),
    ensures
        forall|e: int| !sec_shape(tok, e),
{
    assert forall|e: int| !sec_shape(tok, e) by {
        if sec_shape(tok, e) {
            if e <= d {
                assert(e >= 1);
                assert(d >= 1);
                assert(e < tok.len() ==> tok[e] == '.');
                if e < d {
                    assert(is_digit_char(tok[e]));
                    assert(!is_digit_char('.')) by {
                        assert('.' as int == 46);
                    }
                }
            } else {
                assert(is_digit_char(tok.subrange(0, e)[d]));
            }
        }
    }
}

/// No seconds-like shape exists when a non-digit follows the dot.
pub proof fn lemma_no_sec_shape_tail(tok: Seq<char>, d: int, e: int)
    requires
        1 <= d < tok.len(),
        forall|k: int| 0 <= k < d ==> is_digit_char(#[trigger] tok[k]),
        !is_digit_char(tok[d]),
        d < e < tok.len(),
        !is_digit_char(tok[e]),
    ensures
        forall|f: int| !sec_shape(tok, f),
{
    assert forall|f: int| !sec_shape(tok, f) by {
        if sec_shape(tok, f) {
            if f < d {
                assert(f < tok.len());
                assert(tok[f] == '.');
                assert(is_digit_char(tok[f]));
                assert(!is_digit_char('.')) by {
                    assert('.' as int == 46);
                }
            } else if f > d {
                assert(is_digit_char(tok.subrange(0, f)[d]));
            } else {
                assert(is_digit_char(tok.subrange(d + 1, tok.len() as int)[e - d - 1]));
            }
        }
    }
}

/// No time shape exists when the hours digit run is empty, runs to the end,
/// or is followed by something other than a colon.
pub proof fn lemma_no_time_shape_hours(s: Seq<char>, i: int)
    requires
        0 <= i <= s.len(),
        forall|k: int| 0 <= k < i ==> is_digit_char(#[trigger] s[k]),
        i < s.len() ==> !is_digit_char(s[i]),
        i == 0 || i == s.len() || s[i] != ':',
    ensures
        !valid_time(s),
{
    assert forall|a: int, b: int| !time_shape(s, a, b) by {
        if time_shape(s, a, b) {
            assert(!is_digit_char(':')) by {
                assert(':' as int == 58);
            }
            if a < i {
                assert(is_digit_char(s[a]));
            }
            if i < a {
                assert(is_digit_char(s.subrange(0, a)[i]));
            }
        }
    }
}

/// No time shape exists when, after the hours colon at `i`, the minutes
/// digit run is empty, runs to the end, or is not followed by a colon.
pub proof fn lemma_no_time_shape_minutes(s: Seq<char>, i: int, j: int)
    requires
        1 <= i < s.len(),
        s[i] == ':',
        forall|k: int| 0 <= k < i ==> is_digit_char(#[trigger] s[k]),
        i + 1 <= j <= s.len(),
        forall|k: int| i + 1 <= k < j ==> is_digit_char(#[trigger] s[k]),
        j < s.len() ==> !is_digit_char(s[j]),
        j == i + 1 || j == s.len() || s[j] != ':',
    ensures
        !valid_time(s),
{
    assert forall|a: int, b: int| !time_shape(s, a, b) by {
        if time_shape(s, a, b) {
            assert(!is_digit_char(':')) by {
                assert(':' as int == 58);
            }
            if a < i {
                assert(is_digit_char(s[a]));
            }
            if i < a {
                assert(is_digit_char(s.subrange(0, a)[i]));
            }
            if b < j {
                assert(is_digit_char(s[b])) by {
                    assert(a == i);
                }
            }
            if j < b {
                assert(is_digit_char(s.subrange(a + 1, b)[j - a - 1]));
            }
        }
    }
}

/// No time shape exists when the seconds part after the minutes colon at
/// `j` has no seconds-like shape.
pub proof fn lemma_no_time_shape_seconds(s: Seq<char>, i: int, j: int)
    requires
        1 <= i < s.len(),
        s[i] == ':',
        forall|k: int| 0 <= k < i ==> is_digit_char(#[trigger] s[k]),
        i + 1 < j < s.len(),
        s[j] == ':',
        forall|k: int| i + 1 <= k < j ==> is_digit_char(#[trigger] s[k]),
        forall|e: int| !#[trigger] sec_shape(s.subrange(j + 1, s.len() as int), e),
    ensures
        !valid_time(s),
{
    assert forall|a: int, b: int| !time_shape(s, a, b) by {
        if time_shape(s, a, b) {
            assert(!is_digit_char(':')) by {
                assert(':' as int == 58);
            }
            if a < i {
                assert(is_digit_char(s[a]));
            }
            if i < a {
                assert(is_digit_char(s.subrange(0, a)[i]));
            }
            if b < j {
                assert(is_digit_char(s[b])) by {
                    assert(a == i);
                }
            }
            if j < b {
                assert(is_digit_char(s.subrange(a + 1, b)[j - a - 1]));
            }
            assert(a == i && b == j);
            let e = choose|e: int| #[trigger] sec_shape(s.subrange(j + 1, s.len() as int), e);
            assert(!sec_shape(s.subrange(j + 1, s.len() as int), e));
        }
    }
}

/// Ties the value of a well-shaped time string to its witnessed colons.
pub proof fn lemma_time_value_at(s: Seq<char>, i: int, j: int)
    requires
        time_shape(s, i, j),
    ensures
        valid_time(s),
        time_value_ms(s) == time_ms_at(s, i, j),
{
    let (ci, cj) = choose|ci: int, cj: int| time_shape(s, ci, cj);
    assert(time_shape(s, ci, cj));
    lemma_time_shape_unique(s, i, j, ci, cj);
}

/// Reads the character range `[from, to)` as a seconds-like decimal token,
/// in thousandths.
pub fn parse_milli(s: &str, from: usize, to: usize) -> (r: Option<u64>)
    requires
        from <= to <= s@.len(),
        s@.len() <= usize::MAX,
    ensures
        r == parse_milli_spec(s@.subrange(from as int, to as int)),
{
    let ghost tok = s@.subrange(from as int, to as int);
    proof {
        assert(forall|k: int| 0 <= k < tok.len() ==> tok[k] == s@[from + k]);
    }
    let d = scan_digits(s, from, to);
    if d == from {
        proof {
            lemma_no_sec_shape_head(tok, 0);
        }
        return None;
    }
    let ip: Option<u64>;
    let mut frac: u64 = 0;
    let ghost dd: int = d - from;
    if d == to {
        ip = parse_u64_digits(s, from, to);
        proof {
            assert(tok.subrange(0, dd) =~= tok);
            assert(sec_shape(tok, dd));
            assert(frac_milli(Seq::empty()) == 0);
        }
    } else {
        if s.get_char(d) != '.' {
            proof {
                assert(tok[dd] == s@[d as int]);
                lemma_no_sec_shape_head(tok, dd);
            }
            return None;
        }
        let e = scan_digits(s, d + 1, to);
        if e < to {
            proof {
                assert(!is_digit_char(tok[dd])) by {
                    assert(tok[dd] == s@[d as int]);
                }
                assert(!is_digit_char(tok[e - from]));
                lemma_no_sec_shape_tail(tok, dd, e - from);
            }
            return None;
        }
        ip = parse_u64_digits(s, from, d);
        let ghost fd = tok.subrange(dd + 1, tok.len() as int);
        proof {
            assert(tok[dd] == s@[d as int]);
            assert(sec_shape(tok, dd));
            assert(forall|k: int| 0 <= k < fd.len() ==> fd[k] == s@[d + 1 + k]);
        }
        let rem: usize = to - d - 1;
        if rem >= 1 {
            let c1 = s.get_char(d + 1);
            proof {
                assert(is_digit_char(c1));
            }
            frac = (c1 as u32 - 48) as u64 * 100;
        }
        if rem >= 2 {
            let c2 = s.get_char(d + 2);
            proof {
                assert(is_digit_char(c2));
            }
            frac = frac + (c2 as u32 - 48) as u64 * 10;
        }
        if rem >= 3 {
            let c3 = s.get_char(d + 3);
            proof {
                assert(is_digit_char(c3));
            }
            frac = frac + (c3 as u32 - 48) as u64;
        }
        proof {
            assert(frac == frac_milli(fd));
        }
    }
    proof {
        assert(sec_shape(tok, dd));
        let cd = choose|cd: int| #[trigger] sec_shape(tok, cd);
        lemma_sec_shape_unique(tok, dd, cd);
        assert(tok.subrange(0, dd) =~= s@.subrange(from as int, d as int));
    }
    match ip {
        None => {
            proof {
                let iv = digits_value(tok.subrange(0, dd));
                assert(iv > u64::MAX);
                assert(sec_part_ms(tok, dd) >= iv * 1000);
                assert(iv * 1000 >= iv);
            }
            None
        },
        Some(v) => {
            let total: u128 = v as u128 * 1000 + frac as u128;
            proof {
                assert(sec_part_ms(tok, dd) == v * 1000 + frac);
            }
            if total > u64::MAX as u128 {
                None
            } else {
                Some(total as u64)
            }
        },
    }
}

/// Parses an `H:MM:SS.fff` time string into whole milliseconds: the value
/// is hours times 3600000, plus minutes times 60000, plus the seconds
/// component in milliseconds. Any malformed string, and any value beyond
/// `u64::MAX` milliseconds, yields `None`.
pub fn parse_time_to_seconds(time_str: &str) -> (r: Option<u64>)
    ensures
        r == parse_time_spec(time_str@),
{
    let n: usize = time_str.unicode_len();
    let i = scan_digits(time_str, 0, n);
    if i == 0 || i >= n || time_str.get_char(i) != ':' {
        proof {
            lemma_no_time_shape_hours(time_str@, i as int);
        }
        return None;
    }
    let j = scan_digits(time_str, i + 1, n);
    if j == i + 1 || j >= n || time_str.get_char(j) != ':' {
        proof {
            lemma_no_time_shape_minutes(time_str@, i as int, j as int);
        }
        return None;
    }
    let ghost sec = time_str@.subrange(j + 1, time_str@.len() as int);
    let sec_ms = parse_milli(time_str, j + 1, n);
    match sec_ms {
        None => {
            proof {
                if exists|dd: int| #[trigger] sec_shape(sec, dd) {
                    let dd = choose|dd: int| #[trigger] sec_shape(sec, dd);
                    assert(time_shape(time_str@, i as int, j as int));
                    lemma_time_value_at(time_str@, i as int, j as int);
                    assert(sec_part_ms(sec, dd) > u64::MAX);
                    assert(time_value_ms(time_str@) >= sec_part_ms(sec, dd)) by {
                        let cd = choose|cd: int| sec_shape(sec, cd);
                        lemma_sec_shape_unique(sec, dd, cd);
                    }
                } else {
                    lemma_no_time_shape_seconds(time_str@, i as int, j as int);
                }
            }
            None
        },
        Some(sv) => {
            proof {
                assert(time_shape(time_str@, i as int, j as int));
                lemma_time_value_at(time_str@, i as int, j as int);
            }
            let h = parse_u64_digits(time_str, 0, i);
            let m = parse_u64_digits(time_str, i + 1, j);
            let ghost hseq = time_str@.subrange(0, i as int);
            let ghost mseq = time_str@.subrange(i + 1, j as int);
            let ghost svv = ({
                let cd = choose|cd: int| sec_shape(sec, cd);
                sec_part_ms(sec, cd)
            });
            proof {
                assert(time_value_ms(time_str@) == digits_value(hseq) * 3600000 + digits_value(
                    mseq,
                ) * 60000 + svv);
                assert(svv == sv);
            }
            match (h, m) {
                (Some(hv), Some(mv)) => {
                    let total: u128 = hv as u128 * 3600000 + mv as u128 * 60000 + sv as u128;
                    proof {
                        assert(time_value_ms(time_str@) == hv * 3600000 + mv * 60000 + sv);
                    }
                    if total > u64::MAX as u128 {
                        None
                    } else {
                        Some(total as u64)
                    }
                },
                (None, _) => {
                    proof {
                        let hval = digits_value(hseq);
                        assert(hval > u64::MAX);
                        assert(hval * 3600000 >= hval);
                    }
                    None
                },
                (_, None) => {
                    proof {
                        let mval = digits_value(mseq);
                        assert(mval > u64::MAX);
                        assert(mval * 60000 >= mval);
                    }
                    None
                },
            }
        },
    }
}

/// What a machine-grammar progress line yields: the time of an
/// `out_time=H:MM:SS.fff` line; any other key gives nothing.
pub open spec fn progress_time_spec(line: Seq<char>) -> Option<u64> {
    if line.len() >= "out_time="@.len() && line.subrange(0, "out_time="@.len() as int)
        == "out_time="@ {
        parse_time_spec(line.subrange("out_time="@.len() as int, line.len() as int))
    } else {
        None
    }
}

/// Parses a machine-readable progress line: only an `out_time=` key yields
/// a value, in milliseconds; any other line yields `None`.
pub fn parse_progress_time(line: &str) -> (r: Option<u64>)
    ensures
        r == progress_time_spec(line@),
{
    if !starts_with(line, "out_time=") {
        return None;
    }
    let m: usize = "out_time=".unicode_len();
    let n: usize = line.unicode_len();
    let rest = line.substring_char(m, n);
    let r = parse_time_to_seconds(rest);
    proof {
        assert(rest@ == line@.subrange("out_time="@.len() as int, line@.len() as int));
    }
    r
}

pub open spec fn stop_comma() -> spec_fn(char) -> bool {
    |c: char| c == ','
}

/// What a banner line yields: after the first `Duration:` marker, the text
/// up to the next comma, trimmed, read as a time string.
pub open spec fn duration_spec(line: Seq<char>) -> Option<u64> {
    match first_match(line, "Duration:"@) {
        Some(p) => {
            let after = line.subrange(p + "Duration:"@.len() as int, line.len() as int);
            parse_time_spec(trim_spec(take_until(after, stop_comma())))
        },
        None => None,
    }
}

/// Looks for a `Duration:` marker in one banner line and parses the time
/// between it and the next comma, in milliseconds. A line without the
/// marker, or with an unreadable time, yields `None`.
pub fn parse_duration_from_info(line: &str) -> (r: Option<u64>)
    ensures
        r == duration_spec(line@),
{
    match find_sub(line, "Duration:") {
        None => None,
        Some(p) => {
            let n: usize = line.unicode_len();
            proof {
                crate::text::lemma_first_match(line@, "Duration:"@);
            }
            let vs: usize = p + "Duration:".unicode_len();
            let ghost after = line@.subrange(vs as int, n as int);
            let e = scan_until(line, vs, n, ',');
            proof {
                assert(forall|k: int| 0 <= k < e - vs ==> !(stop_comma())(#[trigger] after[k]));
                if e < n {
                    assert((stop_comma())(after[e - vs]));
                }
                lemma_take_until(after, stop_comma(), e - vs);
                assert(take_until(after, stop_comma()) =~= line@.subrange(vs as int, e as int));
            }
            // trim the extracted `[vs, e)` range in place
            let mut a: usize = vs;
            while a < e && is_ws(line.get_char(a))
                invariant
                    vs <= a <= e <= line@.len(),
                    line@.len() <= usize::MAX,
                    forall|k: int| vs <= k < a ==> is_ws_char(#[trigger] line@[k]),
                decreases e - a,
            {
                a += 1;
            }
            let mut b: usize = e;
            while b > a && is_ws(line.get_char(b - 1))
                invariant
                    a <= b <= e <= line@.len(),
                    line@.len() <= usize::MAX,
                    forall|k: int| b <= k < e ==> is_ws_char(#[trigger] line@[k]),
                decreases b,
            {
                b -= 1;
            }
            let t = line.substring_char(a, b);
            let r = parse_time_to_seconds(t);
            proof {
                let upto = line@.subrange(vs as int, e as int);
                assert(forall|k: int| 0 <= k < a - vs ==> is_ws_char(#[trigger] upto[k]));
                lemma_skip_ws(upto, a - vs);
                let mid = line@.subrange(a as int, e as int);
                assert(skip_ws(upto) =~= mid);
                assert(forall|k: int| b - a <= k < mid.len() ==> is_ws_char(#[trigger] mid[k]));
                lemma_skip_ws_end(mid, b - a);
                assert(skip_ws_end(mid) =~= line@.subrange(a as int, b as int));
                assert(t@ == trim_spec(take_until(after, stop_comma())));
            }
            r
        },
    }
}

/// The raw token of a `key=` field: the text after the first occurrence of
/// `key`, optionally past leading whitespace, up to the first stop
/// character (whitespace, and also `x` when `stop_x` is set).
pub open spec fn field_token(
    line: Seq<char>,
    key: Seq<char>,
    skip_leading: bool,
    stop_x: bool,
) -> Option<Seq<char>> {
    match first_match(line, key) {
        Some(p) => {
            let rest = line.subrange(p + key.len() as int, line.len() as int);
            let body = if skip_leading {
                skip_ws(rest)
            } else {
                rest
            };
            Some(
                take_until(
                    body,
                    if stop_x {
                        stop_ws_or_x()
                    } else {
                        stop_ws()
                    },
                ),
            )
        },
        None => None,
    }
}

/// A whitespace-skipped field read as a plain unsigned integer.
pub open spec fn u64_field(line: Seq<char>, key: Seq<char>) -> Option<u64> {
    match field_token(line, key, true, false) {
        Some(tok) => parse_u64_spec(tok),
        None => None,
    }
}

/// A whitespace-skipped field read as a decimal, in thousandths.
pub open spec fn milli_field(line: Seq<char>, key: Seq<char>, stop_x: bool) -> Option<u64> {
    match field_token(line, key, true, stop_x) {
        Some(tok) => parse_milli_spec(tok),
        None => None,
    }
}

/// A whitespace-skipped field kept as text; empty means absent.
pub open spec fn text_field(line: Seq<char>, key: Seq<char>) -> Option<Seq<char>> {
    match field_token(line, key, true, false) {
        Some(tok) => if tok.len() > 0 {
            Some(tok)
        } else {
            None
        },
        None => None,
    }
}

/// The `time=` field of a stats line, read as a time string. The token
/// starts right after the key: no leading whitespace is skipped, so a
/// space after `time=` makes the field unreadable.
pub open spec fn time_field_ms(line: Seq<char>) -> Option<u64> {
    match field_token(line, "time="@, false, false) {
        Some(tok) => parse_time_spec(tok),
        None => None,
    }
}

/// Character bounds of a field's token within `line`, if the key occurs.
fn get_field_token(line: &str, key: &str, skip_leading: bool, stop_x: bool) -> (r: Option<
    (usize, usize),
>)
    ensures
        match r {
            Some(ab) => ab.0 <= ab.1 <= line@.len() && field_token(
                line@,
                key@,
                skip_leading,
                stop_x,
            ) == Some(line@.subrange(ab.0 as int, ab.1 as int)),
            None => field_token(line@, key@, skip_leading, stop_x) is None,
        },
{
    match find_sub(line, key) {
        None => None,
        Some(p) => {
            let n: usize = line.unicode_len();
            proof {
                crate::text::lemma_first_match(line@, key@);
            }
            let vs: usize = p + key.unicode_len();
            let (a, b) = token_after(line, vs, skip_leading, stop_x);
            Some((a, b))
        },
    }
}

/// One progress report extracted from a stats line. Times are in
/// milliseconds; rates (`fps=`, `speed=`) are decimals read in
/// thousandths; `size=` and `bitrate=` are kept as raw text.
#[derive(Debug, Clone, PartialEq)]
pub struct FFmpegProgress {
    pub time_ms: u64,
    pub bitrate: Option<String>,
    pub speed_milli: Option<u64>,
    pub fps_milli: Option<u64>,
    pub frame: Option<u64>,
    pub size: Option<String>,
}

/// Parses a human-readable stats line. A line without a readable `time=`
/// field yields `None`; every other field is optional and read
/// independently, whitespace-tolerantly, from its first occurrence.
pub fn parse_progress_line(line: &str) -> (r: Option<FFmpegProgress>)
    ensures
        match r {
            Some(p) => {
                &&& time_field_ms(line@) is Some
                &&& p.time_ms == time_field_ms(line@).unwrap()
                &&& p.frame == u64_field(line@, "frame="@)
                &&& p.fps_milli == milli_field(line@, "fps="@, false)
                &&& p.speed_milli == milli_field(line@, "speed="@, true)
                &&& (match p.size {
                    Some(v) => text_field(line@, "size="@) == Some(v@),
                    None => text_field(line@, "size="@) is None,
                })
                &&& (match p.bitrate {
                    Some(v) => text_field(line@, "bitrate="@) == Some(v@),
                    None => text_field(line@, "bitrate="@) is None,
                })
            },
            None => time_field_ms(line@) is None,
        },
        !contains_seq(line@, "time="@) ==> r is None,
{
    let n: usize = line.unicode_len();
    proof {
        assert(line@.len() <= usize::MAX);
        lemma_first_match_contains(line@, "time="@);
    }
    let time_ms: u64 = match get_field_token(line, "time=", false, false) {
        None => {
            return None;
        },
        Some((a, b)) => {
            let tok = line.substring_char(a, b);
            match parse_time_to_seconds(tok) {
                None => {
                    return None;
                },
                Some(v) => v,
            }
        },
    };
    let frame: Option<u64> = match get_field_token(line, "frame=", true, false) {
        None => None,
        Some((a, b)) => parse_u64_digits(line, a, b),
    };
    let fps_milli: Option<u64> = match get_field_token(line, "fps=", true, false) {
        None => None,
        Some((a, b)) => parse_milli(line, a, b),
    };
    let speed_milli: Option<u64> = match get_field_token(line, "speed=", true, true) {
        None => None,
        Some((a, b)) => parse_milli(line, a, b),
    };
    let size: Option<String> = match get_field_token(line, "size=", true, false) {
        None => None,
        Some((a, b)) => {
            if a < b {
                Some(line.substring_char(a, b).to_owned())
            } else {
                None
            }
        },
    };
    let bitrate: Option<String> = match get_field_token(line, "bitrate=", true, false) {
        None => None,
        Some((a, b)) => {
            if a < b {
                Some(line.substring_char(a, b).to_owned())
            } else {
                None
            }
        },
    };
    Some(
        FFmpegProgress {
            time_ms,
            bitrate,
            speed_milli,
            fps_milli,
            frame,
            size,
        },
    )
}

/// Extracts the text between the first occurrence of `start_pattern` and
/// the following occurrence of `end_pattern`; an empty `end_pattern` takes
/// everything to the end of the line, trimmed.
pub fn extract_value<'a>(line: &'a str, start_pattern: &str, end_pattern: &str) -> (r: Option<
    &'a str,
>)
    ensures
        ({
            match first_match(line@, start_pattern@) {
                None => r is None,
                Some(p) => {
                    let rem = line@.subrange(p + start_pattern@.len() as int, line@.len() as int);
                    if end_pattern@.len() == 0 {
                        r is Some && r.unwrap()@ == trim_spec(rem)
                    } else {
                        match first_match(rem, end_pattern@) {
                            None => r is None,
                            Some(e) => r is Some && r.unwrap()@ == rem.subrange(0, e),
                        }
                    }
                },
            }
        }),
{
    match find_sub(line, start_pattern) {
        None => None,
        Some(p) => {
            let n: usize = line.unicode_len();
            proof {
                crate::text::lemma_first_match(line@, start_pattern@);
            }
            let vs: usize = p + start_pattern.unicode_len();
            let ghost rem = line@.subrange(vs as int, n as int);
            if end_pattern.unicode_len() == 0 {
                let mut a: usize = vs;
                while a < n && is_ws(line.get_char(a))
                    invariant
                        vs <= a <= n <= line@.len(),
                        line@.len() <= usize::MAX,
                        n == line@.len(),
                        forall|k: int| vs <= k < a ==> is_ws_char(#[trigger] line@[k]),
                    decreases n - a,
                {
                    a += 1;
                }
                let mut b: usize = n;
                while b > a && is_ws(line.get_char(b - 1))
                    invariant
                        a <= b <= n <= line@.len(),
                        line@.len() <= usize::MAX,
                        n == line@.len(),
                        forall|k: int| b <= k < n ==> is_ws_char(#[trigger] line@[k]),
                    decreases b,
                {
                    b -= 1;
                }
                proof {
                    assert(forall|k: int| 0 <= k < a - vs ==> is_ws_char(#[trigger] rem[k]));
                    lemma_skip_ws(rem, a - vs);
                    let mid = line@.subrange(a as int, n as int);
                    assert(skip_ws(rem) =~= mid);
                    assert(forall|k: int| b - a <= k < mid.len() ==> is_ws_char(#[trigger] mid[k]));
                    lemma_skip_ws_end(mid, b - a);
                    assert(skip_ws_end(mid) =~= line@.subrange(a as int, b as int));
                }
                Some(line.substring_char(a, b))
            } else {
                let rem_str = line.substring_char(vs, n);
                match find_sub(rem_str, end_pattern) {
                    None => None,
                    Some(e) => {
                        proof {
                            crate::text::lemma_first_match(rem_str@, end_pattern@);
                            assert(rem.subrange(0, e as int) =~= line@.subrange(
                                vs as int,
                                (vs + e) as int,
                            ));
                        }
                        Some(line.substring_char(vs, vs + e))
                    },
                }
            }
        },
    }
}

/// The shared fraction-of-completion formula: the whole percent
/// `current * 100 / duration`, clamped at 100; an unknown or zero duration
/// reads as no progress.
pub open spec fn percent_spec(current_ms: nat, duration_ms: nat) -> nat {
    if duration_ms > 0 {
        if current_ms * 100 / duration_ms > 100 {
            100
        } else {
            current_ms * 100 / duration_ms
        }
    } else {
        0
    }
}

/// Computes the progress percentage for a playback position against a
/// total duration, clamped so it never exceeds 100.
pub fn compute_percent(current_ms: u64, duration_ms: u64) -> (p: u32)
    ensures
        p == percent_spec(current_ms as nat, duration_ms as nat),
        p <= 100,
{
    if duration_ms == 0 {
        return 0;
    }
    let q: u128 = (current_ms as u128) * 100 / (duration_ms as u128);
    if q >= 100 {
        100
    } else {
        q as u32
    }
}

/// What probing a whole banner yields: the duration of the first line
/// that carries a readable `Duration:` marker; lines after it change
/// nothing, and a banner without one has no known duration.
pub open spec fn banner_duration_spec(lines: Seq<Seq<char>>) -> Option<u64>
    decreases lines.len(),
{
    if lines.len() == 0 {
        None
    } else {
        match duration_spec(lines[0]) {
            Some(d) => Some(d),
            None => banner_duration_spec(lines.drop_first()),
        }
    }
}

/// Scans the encoder's banner output, line by line in order, for the
/// first readable `Duration:` line; a banner without one is the normal
/// "unknown duration" outcome, not an error.
pub fn duration_from_banner(lines: &Vec<String>) -> (r: Option<u64>)
    ensures
        r == banner_duration_spec(lines@.map_values(|l: String| l@)),
{
    let ghost views = lines@.map_values(|l: String| l@);
    let mut k: usize = 0;
    proof {
        assert(views.skip(0) =~= views);
    }
    while k < lines.len()
        invariant
            k <= lines@.len(),
            views == lines@.map_values(|l: String| l@),
            banner_duration_spec(views) == banner_duration_spec(views.skip(k as int)),
            forall|l: int| 0 <= l < k ==> duration_spec(#[trigger] views[l]) is None,
        decreases lines@.len() - k,
    {
        let d = parse_duration_from_info(lines[k].as_str());
        match d {
            Some(v) => {
                proof {
                    assert(views.skip(k as int)[0] == views[k as int]);
                    assert(banner_duration_spec(views.skip(k as int)) == Some(v));
                }
                return Some(v);
            },
            None => {
                proof {
                    assert(views.skip(k as int)[0] == views[k as int]);
                    assert(views.skip(k as int).drop_first() =~= views.skip(k + 1));
                }
            },
        }
        k += 1;
    }
    proof {
        assert(views.skip(lines@.len() as int).len() == 0);
    }
    None
}

} // verus!

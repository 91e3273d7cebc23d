//! Verified text primitives: character classes, substring search, token
//! scanning and decimal-digit parsing, shared by the progress parser.

use vstd::prelude::*;

verus! {

use crate::trusted::push_char;
use vstd::string::StrSliceExecFns;

/// ASCII whitespace, the separators that encoder output uses between fields.
pub open spec fn is_ws_char(c: char) -> bool {
    c == ' ' || c == '\t' || c == '\n' || c == '\r' || c == '\u{b}' || c == '\u{c}'
}

pub open spec fn is_digit_char(c: char) -> bool {
    48 <= c as int && c as int <= 57
}

pub open spec fn digit_val(c: char) -> nat {
    (c as int - 48) as nat
}

/// The pattern `pat` occurs in `s` starting at index `i`.
pub open spec fn match_at(s: Seq<char>, pat: Seq<char>, i: int) -> bool {
    &&& 0 <= i
    &&& i + pat.len() <= s.len()
    &&& s.subrange(i, i + pat.len() as int) == pat
}

/// Index of the first occurrence of `pat` in `s`, if any.
pub open spec fn first_match(s: Seq<char>, pat: Seq<char>) -> Option<int>
    decreases s.len(),
{
    if pat.len() > s.len() {
        None
    } else if s.subrange(0, pat.len() as int) == pat {
        Some(0)
    } else if s.len() == 0 {
        None
    } else {
        match first_match(s.drop_first(), pat) {
            Some(i) => Some(i + 1),
            None => None,
        }
    }
}

pub proof fn lemma_first_match(s: Seq<char>, pat: Seq<char>)
    ensures
        match first_match(s, pat) {
            Some(i) => match_at(s, pat, i) && (forall|j: int| 0 <= j < i ==> !match_at(s, pat, j)),
            None => forall|j: int| !match_at(s, pat, j),
        },
    decreases s.len(),
{
    if pat.len() > s.len() {
        assert(forall|j: int| !match_at(s, pat, j));
    } else if s.subrange(0, pat.len() as int) == pat {
        assert(match_at(s, pat, 0));
    } else if s.len() == 0 {
        assert(forall|j: int| !match_at(s, pat, j));
    } else {
        let t = s.drop_first();
        lemma_first_match(t, pat);
        assert forall|j: int| 1 <= j implies match_at(s, pat, j) == match_at(t, pat, j - 1) by {
            if 0 <= j - 1 && j - 1 + pat.len() <= t.len() {
                assert(t.subrange(j - 1, j - 1 + pat.len() as int) =~= s.subrange(
                    j,
                    j + pat.len() as int,
                ));
            }
        }
        assert(!match_at(s, pat, 0));
        match first_match(t, pat) {
            Some(i) => {
                assert(first_match(s, pat) == Some(i + 1));
                assert(match_at(s, pat, i + 1));
            },
            None => {},
        }
    }
}

/// `first_match` returns exactly the least index at which `pat` occurs.
pub proof fn lemma_first_match_is(s: Seq<char>, pat: Seq<char>, i: int)
    requires
        match_at(s, pat, i),
        forall|j: int| 0 <= j < i ==> !match_at(s, pat, j),
    ensures
        first_match(s, pat) == Some(i),
{
    lemma_first_match(s, pat);
    match first_match(s, pat) {
        Some(k) => {
            if k < i {
                assert(!match_at(s, pat, k));
            }
            if i < k {
                assert(!match_at(s, pat, i));
            }
        },
        None => {
            assert(!match_at(s, pat, i));
        },
    }
}

pub proof fn lemma_first_match_none(s: Seq<char>, pat: Seq<char>)
    requires
        forall|j: int| !match_at(s, pat, j),
    ensures
        first_match(s, pat) is None,
{
    lemma_first_match(s, pat);
}

/// Longest prefix of `s` whose characters all fail `stop`.
pub open spec fn take_until(s: Seq<char>, stop: spec_fn(char) -> bool) -> Seq<char>
    decreases s.len(),
{
    if s.len() == 0 {
        Seq::empty()
    } else if stop(s[0]) {
        Seq::empty()
    } else {
        seq![s[0]] + take_until(s.drop_first(), stop)
    }
}

pub proof fn lemma_take_until(s: Seq<char>, stop: spec_fn(char) -> bool, j: int)
    requires
        0 <= j <= s.len(),
        forall|k: int| 0 <= k < j ==> !stop(s[k]),
        j < s.len() ==> stop(s[j]),
    ensures
        take_until(s, stop) == s.subrange(0, j),
    decreases s.len(),
{
    if s.len() == 0 {
        assert(take_until(s, stop) =~= s.subrange(0, j));
    } else if j == 0 {
        assert(take_until(s, stop) =~= s.subrange(0, 0));
    } else {
        let t = s.drop_first();
        assert(forall|k: int| 0 <= k < j - 1 ==> !stop(#[trigger] t[k]) && t[k] == s[k + 1]);
        lemma_take_until(t, stop, j - 1);
        assert(take_until(s, stop) =~= s.subrange(0, j));
    }
}

/// `s` without its leading whitespace.
pub open spec fn skip_ws(s: Seq<char>) -> Seq<char>
    decreases s.len(),
{
    if s.len() == 0 {
        s
    } else if is_ws_char(s[0]) {
        skip_ws(s.drop_first())
    } else {
        s
    }
}

pub proof fn lemma_skip_ws(s: Seq<char>, j: int)
    requires
        0 <= j <= s.len(),
        forall|k: int| 0 <= k < j ==> is_ws_char(s[k]),
        j < s.len() ==> !is_ws_char(s[j]),
    ensures
        skip_ws(s) == s.subrange(j, s.len() as int),
    decreases s.len(),
{
    if s.len() == 0 {
        assert(skip_ws(s) =~= s.subrange(j, s.len() as int));
    } else if j == 0 {
        assert(skip_ws(s) =~= s.subrange(0, s.len() as int));
    } else {
        let t = s.drop_first();
        assert(forall|k: int| 0 <= k < j - 1 ==> is_ws_char(#[trigger] t[k]) && t[k] == s[k + 1]);
        lemma_skip_ws(t, j - 1);
        assert(skip_ws(s) =~= s.subrange(j, s.len() as int));
    }
}

pub open spec fn all_digits(s: Seq<char>) -> bool {
    forall|i: int| 0 <= i < s.len() ==> is_digit_char(#[trigger] s[i])
}

/// Numeric value of a string of decimal digits (empty reads as zero).
pub open spec fn digits_value(s: Seq<char>) -> nat
    decreases s.len(),
{
    if s.len() == 0 {
        0
    } else {
        digits_value(s.drop_last()) * 10 + digit_val(s.last())
    }
}

/// Extending a digit string to the right can only keep or raise its value.
pub proof fn lemma_digits_value_prefix_le(s: Seq<char>, i: int)
    requires
        0 <= i <= s.len(),
    ensures
        digits_value(s.subrange(0, i)) <= digits_value(s),
    decreases s.len() - i,
{
    if i < s.len() {
        let p = s.subrange(0, i + 1);
        assert(p.drop_last() =~= s.subrange(0, i));
        lemma_digits_value_prefix_le(s, i + 1);
    } else {
        assert(s.subrange(0, i) =~= s);
    }
}

/// `s` has an occurrence of `pat` somewhere.
pub open spec fn contains_seq(s: Seq<char>, pat: Seq<char>) -> bool {
    exists|i: int| match_at(s, pat, i)
}

pub proof fn lemma_first_match_contains(s: Seq<char>, pat: Seq<char>)
    ensures
        contains_seq(s, pat) <==> first_match(s, pat) is Some,
{
    lemma_first_match(s, pat);
    if contains_seq(s, pat) {
        let i = choose|i: int| match_at(s, pat, i);
        assert(match_at(s, pat, i));
    }
}

/// `s` without its trailing whitespace.
pub open spec fn skip_ws_end(s: Seq<char>) -> Seq<char>
    decreases s.len(),
{
    if s.len() == 0 {
        s
    } else if is_ws_char(s.last()) {
        skip_ws_end(s.drop_last())
    } else {
        s
    }
}

pub proof fn lemma_skip_ws_end(s: Seq<char>, j: int)
    requires
        0 <= j <= s.len(),
        forall|k: int| j <= k < s.len() ==> is_ws_char(s[k]),
        j > 0 ==> !is_ws_char(s[j - 1]),
    ensures
        skip_ws_end(s) == s.subrange(0, j),
    decreases s.len(),
{
    if s.len() == 0 {
        assert(skip_ws_end(s) =~= s.subrange(0, j));
    } else if j == s.len() {
        assert(skip_ws_end(s) =~= s.subrange(0, j));
    } else {
        let t = s.drop_last();
        assert(forall|k: int| j <= k < t.len() ==> is_ws_char(#[trigger] t[k]));
        lemma_skip_ws_end(t, j);
        assert(t.subrange(0, j) =~= s.subrange(0, j));
    }
}

/// `s` without leading and trailing whitespace.
pub open spec fn trim_spec(s: Seq<char>) -> Seq<char> {
    skip_ws_end(skip_ws(s))
}

/// Value of a whole token as an unsigned 64-bit decimal numeral.
pub open spec fn parse_u64_spec(tok: Seq<char>) -> Option<u64> {
    if all_digits(tok) && tok.len() > 0 && digits_value(tok) <= u64::MAX {
        Some(digits_value(tok) as u64)
    } else {
        None
    }
}

/// Lower-cases an ASCII letter and leaves every other character alone.
pub open spec fn lower_char(c: char) -> char {
    if 65 <= c as int && c as int <= 90 {
        ((c as int + 32) as u8) as char
    } else {
        c
    }
}

pub open spec fn lower_seq(s: Seq<char>) -> Seq<char> {
    s.map_values(|c: char| lower_char(c))
}

/// `s` contains `pat` when ASCII case is ignored (`pat` must be lower case).
pub open spec fn contains_ci(s: Seq<char>, pat: Seq<char>) -> bool {
    exists|i: int| match_at(lower_seq(s), pat, i)
}

pub open spec fn stop_ws() -> spec_fn(char) -> bool {
    |c: char| is_ws_char(c)
}

pub open spec fn stop_ws_or_x() -> spec_fn(char) -> bool {
    |c: char| is_ws_char(c) || c == 'x'
}

pub fn is_ws(c: char) -> (r: bool)
    ensures
        r == is_ws_char(c),
{
    let u: u32 = c as u32;
    u == 32 || u == 9 || u == 10 || u == 13 || u == 11 || u == 12
}

pub fn is_digit(c: char) -> (r: bool)
    ensures
        r == is_digit_char(c),
{
    let u: u32 = c as u32;
    48 <= u && u <= 57
}

pub fn lower_ascii(c: char) -> (r: char)
    ensures
        r == lower_char(c),
{
    let u: u32 = c as u32;
    if 65 <= u && u <= 90 {
        ((u + 32) as u8) as char
    } else {
        c
    }
}

fn match_here(s: &str, pat: &str, i: usize) -> (r: bool)
    requires
        i + pat@.len() <= s@.len(),
        s@.len() <= usize::MAX,
    ensures
        r == match_at(s@, pat@, i as int),
{
    let m: usize = pat.unicode_len();
    let mut j: usize = 0;
    while j < m
        invariant
            m == pat@.len(),
            i + m <= s@.len(),
            s@.len() <= usize::MAX,
            j <= m,
            forall|k: int| 0 <= k < j ==> s@[i + k] == pat@[k],
        decreases m - j,
    {
        if s.get_char(i + j) != pat.get_char(j) {
            proof {
                if match_at(s@, pat@, i as int) {
                    assert(s@.subrange(i as int, i + m as int)[j as int] == pat@[j as int]);
                }
            }
            return false;
        }
        j += 1;
    }
    proof {
        assert(s@.subrange(i as int, i + m as int) =~= pat@);
    }
    true
}

/// First occurrence of `pat` in `s`, as a character index.
pub fn find_sub(s: &str, pat: &str) -> (r: Option<usize>)
    ensures
        match r {
            Some(i) => first_match(s@, pat@) == Some(i as int),
            None => first_match(s@, pat@) is None,
        },
{
    let n: usize = s.unicode_len();
    let m: usize = pat.unicode_len();
    if m > n {
        proof {
            lemma_first_match_none(s@, pat@);
        }
        return None;
    }
    if m == 0 {
        proof {
            assert(s@.subrange(0, 0) =~= pat@);
            lemma_first_match_is(s@, pat@, 0);
        }
        return Some(0);
    }
    let mut i: usize = 0;
    while i <= n - m
        invariant
            n == s@.len(),
            m == pat@.len(),
            0 < m <= n,
            i <= n - m + 1,
            forall|j: int| 0 <= j < i ==> !match_at(s@, pat@, j),
        decreases n - i,
    {
        if match_here(s, pat, i) {
            proof {
                lemma_first_match_is(s@, pat@, i as int);
            }
            return Some(i);
        }
        i += 1;
    }
    proof {
        lemma_first_match_none(s@, pat@);
    }
    None
}

/// Whether `s` contains `pat` once ASCII case is folded away.
pub fn contains_ci_exec(s: &str, pat: &str) -> (r: bool)
    ensures
        r == contains_ci(s@, pat@),
{
    let n: usize = s.unicode_len();
    let m: usize = pat.unicode_len();
    if m > n {
        return false;
    }
    if m == 0 {
        proof {
            assert(lower_seq(s@).subrange(0, 0) =~= pat@);
            assert(match_at(lower_seq(s@), pat@, 0));
        }
        return true;
    }
    let mut i: usize = 0;
    while i <= n - m
        invariant
            n == s@.len(),
            m == pat@.len(),
            0 < m <= n,
            i <= n - m + 1,
            forall|j: int| 0 <= j < i ==> !match_at(lower_seq(s@), pat@, j),
        decreases n - i,
    {
        let mut j: usize = 0;
        let mut hit = true;
        while j < m
            invariant
                n == s@.len(),
                m == pat@.len(),
                i + m <= n,
                j <= m,
                hit ==> forall|k: int| 0 <= k < j ==> lower_seq(s@)[i + k] == pat@[k],
                !hit ==> exists|k: int| 0 <= k < m && lower_seq(s@)[i + k] != pat@[k],
            decreases m - j,
        {
            if lower_ascii(s.get_char(i + j)) != pat.get_char(j) {
                proof {
                    assert(lower_seq(s@)[i + j] == lower_char(s@[i + j]));
                    assert(lower_seq(s@)[i + j as int] != pat@[j as int]);
                }
                hit = false;
                j = m;
            } else {
                proof {
                    assert(lower_seq(s@)[i + j] == lower_char(s@[i + j]));
                }
                j += 1;
            }
        }
        if hit {
            proof {
                assert(lower_seq(s@).subrange(i as int, i + m as int) =~= pat@);
                assert(match_at(lower_seq(s@), pat@, i as int));
            }
            return true;
        }
        proof {
            if match_at(lower_seq(s@), pat@, i as int) {
                let k = choose|k: int| 0 <= k < m && lower_seq(s@)[i + k] != pat@[k];
                assert(lower_seq(s@).subrange(i as int, i + m as int)[k] == pat@[k]);
            }
        }
        i += 1;
    }
    false
}

/// Character-level bounds of the next token of `s` from position `from`:
/// optionally skips leading whitespace, then runs to the first stop
/// character (whitespace, and also `x` when `stop_x` is set).
pub fn token_after(s: &str, from: usize, skip_leading: bool, stop_x: bool) -> (r: (usize, usize))
    requires
        from <= s@.len(),
    ensures
        ({
            let rest = s@.subrange(from as int, s@.len() as int);
            let body = if skip_leading {
                skip_ws(rest)
            } else {
                rest
            };
            let stop = if stop_x {
                stop_ws_or_x()
            } else {
                stop_ws()
            };
            &&& from <= r.0 <= r.1 <= s@.len()
            &&& s@.subrange(r.0 as int, r.1 as int) == take_until(body, stop)
            &&& (!skip_leading ==> r.0 == from)
        }),
{
    let n: usize = s.unicode_len();
    let ghost rest = s@.subrange(from as int, s@.len() as int);
    let mut a: usize = from;
    if skip_leading {
        while a < n && is_ws(s.get_char(a))
            invariant
                n == s@.len(),
                from <= a <= n,
                forall|k: int| from <= k < a ==> is_ws_char(#[trigger] s@[k]),
            decreases n - a,
        {
            a += 1;
        }
    }
    proof {
        let body = if skip_leading {
            skip_ws(rest)
        } else {
            rest
        };
        if skip_leading {
            assert(forall|k: int| 0 <= k < a - from ==> is_ws_char(#[trigger] rest[k]));
            lemma_skip_ws(rest, a - from);
        }
        assert(body =~= s@.subrange(a as int, s@.len() as int));
    }
    let mut b: usize = a;
    while b < n && !is_ws(s.get_char(b)) && !(stop_x && s.get_char(b) as u32 == 120)
        invariant
            n == s@.len(),
            a <= b <= n,
            forall|k: int|
                a <= k < b ==> !is_ws_char(#[trigger] s@[k]) && (stop_x ==> s@[k] != 'x'),
        decreases n - b,
    {
        b += 1;
    }
    proof {
        let body = s@.subrange(a as int, s@.len() as int);
        let stop = if stop_x {
            stop_ws_or_x()
        } else {
            stop_ws()
        };
        assert(forall|k: int| 0 <= k < b - a ==> !stop(#[trigger] body[k]));
        if b < n {
            assert(stop(body[b - a]));
        }
        lemma_take_until(body, stop, b - a);
        assert(take_until(body, stop) =~= s@.subrange(a as int, b as int));
    }
    (a, b)
}

/// Parses the character range `[from, to)` of `s` as an unsigned decimal
/// numeral; fails on an empty range, a non-digit, or a value above `u64::MAX`.
pub fn parse_u64_digits(s: &str, from: usize, to: usize) -> (r: Option<u64>)
    requires
        from <= to <= s@.len(),
    ensures
        ({
            let d = s@.subrange(from as int, to as int);
            match r {
                Some(v) => all_digits(d) && d.len() > 0 && v == digits_value(d),
                None => !(all_digits(d) && d.len() > 0 && digits_value(d) <= u64::MAX),
            }
        }),
{
    let ghost d = s@.subrange(from as int, to as int);
    if from == to {
        return None;
    }
    let mut acc: u64 = 0;
    let mut i: usize = from;
    while i < to
        invariant
            from <= i <= to <= s@.len(),
            d == s@.subrange(from as int, to as int),
            all_digits(d.subrange(0, i - from)),
            acc == digits_value(d.subrange(0, i - from)),
        decreases to - i,
    {
        let c = s.get_char(i);
        if !is_digit(c) {
            proof {
                assert(d[i - from] == s@[i as int]);
            }
            return None;
        }
        let dv: u64 = (c as u32 - 48) as u64;
        let ghost p = d.subrange(0, i - from + 1);
        proof {
            assert(p.drop_last() =~= d.subrange(0, i - from));
            assert(p.last() == s@[i as int]);
            assert(digits_value(p) == acc * 10 + dv);
        }
        if acc > (u64::MAX - dv) / 10 {
            proof {
                let q = (u64::MAX - dv) / 10;
                assert((u64::MAX - dv) == q * 10 + (u64::MAX - dv) % 10);
                assert(acc * 10 >= (q + 1) * 10) by (nonlinear_arith)
                    requires
                        acc >= q + 1,
                ;
                assert(digits_value(p) > u64::MAX);
                lemma_digits_value_prefix_le(d, i - from + 1);
                assert(d.subrange(0, d.len() as int) =~= d);
            }
            return None;
        }
        proof {
            let q = (u64::MAX - dv) / 10;
            assert((u64::MAX - dv) == q * 10 + (u64::MAX - dv) % 10);
            assert(acc * 10 <= q * 10) by (nonlinear_arith)
                requires
                    acc <= q,
            ;
        }
        acc = acc * 10 + dv;
        i += 1;
    }
    proof {
        assert(d.subrange(0, (to - from) as int) =~= d);
    }
    Some(acc)
}

/// Decimal rendering of a natural number, most significant digit first.
pub open spec fn dec_str(n: nat) -> Seq<char>
    decreases n,
{
    if n < 10 {
        seq![((48 + n) as u8) as char]
    } else {
        dec_str(n / 10).push(((48 + n % 10) as u8) as char)
    }
}

/// Renders `n` in decimal.
pub fn u64_to_string(n: u64) -> (r: String)
    ensures
        r@ == dec_str(n as nat),
{
    let mut digits: Vec<char> = Vec::new();
    let mut m: u64 = n;
    loop
        invariant_except_break
            (digits@.len() == 0 && m == n) || (m > 0 && dec_str(n as nat) == dec_str(m as nat)
                + digits@.reverse()),
        ensures
            dec_str(n as nat) == digits@.reverse(),
        decreases m,
    {
        let c: char = ((48 + (m % 10) as u32) as u8) as char;
        let ghost before = digits@;
        digits.push(c);
        proof {
            assert(digits@.reverse() =~= seq![c] + before.reverse());
            if before.len() == 0 {
                assert(dec_str(m as nat) + before.reverse() =~= dec_str(m as nat));
            }
            if m >= 10 {
                assert(dec_str(m as nat) == dec_str((m as nat) / 10).push(c));
                assert(dec_str((m as nat) / 10) + digits@.reverse() =~= dec_str(m as nat)
                    + before.reverse());
                assert((m / 10) as nat == (m as nat) / 10);
            } else {
                assert(dec_str(m as nat) == seq![c]);
                assert(dec_str(m as nat) + before.reverse() =~= digits@.reverse());
            }
        }
        m = m / 10;
        if m == 0 {
            break ;
        }
    }
    let mut out = String::new();
    let k: usize = digits.len();
    let mut i: usize = 0;
    proof {
        assert(out@ =~= digits@.reverse().subrange(0, 0));
    }
    while i < k
        invariant
            k == digits@.len(),
            i <= k,
            out@ == digits@.reverse().subrange(0, i as int),
            dec_str(n as nat) == digits@.reverse(),
        decreases k - i,
    {
        push_char(&mut out, digits[k - 1 - i]);
        proof {
            assert(digits@.reverse()[i as int] == digits@[k - 1 - i]);
            assert(out@ =~= digits@.reverse().subrange(0, i + 1));
        }
        i += 1;
    }
    proof {
        assert(digits@.reverse().subrange(0, k as int) =~= digits@.reverse());
    }
    out
}

/// First position in `[from, to)` holding `target`, or `to`.
pub fn scan_until(s: &str, from: usize, to: usize, target: char) -> (r: usize)
    requires
        from <= to <= s@.len(),
        s@.len() <= usize::MAX,
    ensures
        from <= r <= to,
        forall|k: int| from <= k < r ==> s@[k] != target,
        r < to ==> s@[r as int] == target,
{
    let mut i: usize = from;
    while i < to && s.get_char(i) != target
        invariant
            to <= s@.len(),
            s@.len() <= usize::MAX,
            from <= i <= to,
            forall|k: int| from <= k < i ==> s@[k] != target,
        decreases to - i,
    {
        i += 1;
    }
    i
}

/// First position in `[from, to)` holding a non-digit, or `to`.
pub fn scan_digits(s: &str, from: usize, to: usize) -> (r: usize)
    requires
        from <= to <= s@.len(),
        s@.len() <= usize::MAX,
    ensures
        from <= r <= to,
        forall|k: int| from <= k < r ==> is_digit_char(#[trigger] s@[k]),
        r < to ==> !is_digit_char(s@[r as int]),
{
    let mut i: usize = from;
    while i < to && is_digit(s.get_char(i))
        invariant
            to <= s@.len(),
            s@.len() <= usize::MAX,
            from <= i <= to,
            forall|k: int| from <= k < i ==> is_digit_char(#[trigger] s@[k]),
        decreases to - i,
    {
        i += 1;
    }
    i
}

/// Whether `s` begins with `pat`.
pub fn starts_with(s: &str, pat: &str) -> (r: bool)
    ensures
        r == (s@.len() >= pat@.len() && s@.subrange(0, pat@.len() as int) == pat@),
{
    let n: usize = s.unicode_len();
    let m: usize = pat.unicode_len();
    if m > n {
        return false;
    }
    let r = match_here(s, pat, 0);
    r
}

/// Character-for-character equality of two string slices.
pub fn str_eq(a: &str, b: &str) -> (r: bool)
    ensures
        r == (a@ == b@),
{
    let n: usize = a.unicode_len();
    let m: usize = b.unicode_len();
    if n != m {
        return false;
    }
    let mut i: usize = 0;
    while i < n
        invariant
            n == a@.len(),
            n == b@.len(),
            i <= n,
            forall|k: int| 0 <= k < i ==> a@[k] == b@[k],
        decreases n - i,
    {
        if a.get_char(i) != b.get_char(i) {
            return false;
        }
        i += 1;
    }
    proof {
        assert(a@ =~= b@);
    }
    true
}

} // verus!

//! Reading the device pixel ratio out of a client's configuration text.
//!
//! The text is a JSON-like object; it is read loosely: the value runs from
//! the first occurrence of the key, past the next `:`, to the next `,`,
//! `}` or newline. The value is a plain decimal (an optional `+`, digits,
//! an optional fraction) and is returned in thousandths, rounded half up.

use vstd::prelude::*;
use vstd::string::StrSliceExecFns;

verus! {

/// Ratios read above this many thousandths are reported as this value.
pub const DPR_READ_CAP: u32 = 1_000_000_000;

pub open spec fn dpr_key() -> Seq<char> {
    seq!['d', 'e', 'v', 'i', 'c', 'e', '_', 'p', 'i', 'x', 'e', 'l', '_', 'r', 'a', 't', 'i', 'o']
}

/// Whether `pat` occurs in `s` at `i`.
pub open spec fn occurs_at(s: Seq<char>, pat: Seq<char>, i: int) -> bool {
    0 <= i && i + pat.len() <= s.len() && s.subrange(i, i + pat.len()) == pat
}

/// The first position at or after `i` where `pat` occurs in `s`, or -1.
pub open spec fn find_from(s: Seq<char>, pat: Seq<char>, i: int) -> int
    decreases s.len() - i,
{
    if i < 0 || i + pat.len() > s.len() {
        -1
    } else if pat.len() == 0 || occurs_at(s, pat, i) {
        i
    } else {
        find_from(s, pat, i + 1)
    }
}

/// The index of the first character of `s` satisfying `f`, or `s.len()`.
pub open spec fn first_index(s: Seq<char>, f: spec_fn(char) -> bool) -> int
    decreases s.len(),
{
    if s.len() == 0 {
        0
    } else if f(s[0]) {
        0
    } else {
        1 + first_index(s.drop_first(), f)
    }
}

pub open spec fn is_ws(c: char) -> bool {
    c == ' ' || c == '\t' || c == '\n' || c == '\r' || c == '\x0b' || c == '\x0c'
}

pub open spec fn is_digit(c: char) -> bool {
    '0' <= c <= '9'
}

pub open spec fn trim_start(s: Seq<char>) -> Seq<char>
    decreases s.len(),
{
    if s.len() > 0 && is_ws(s[0]) {
        trim_start(s.drop_first())
    } else {
        s
    }
}

pub open spec fn trim_end(s: Seq<char>) -> Seq<char>
    decreases s.len(),
{
    if s.len() > 0 && is_ws(s.last()) {
        trim_end(s.drop_last())
    } else {
        s
    }
}

/// `s` without leading and trailing whitespace.
pub open spec fn trim(s: Seq<char>) -> Seq<char> {
    trim_end(trim_start(s))
}

/// The text of the ratio's value, if the key and a colon after it occur.
pub open spec fn dpr_value_text(s: Seq<char>) -> Option<Seq<char>> {
    let k = find_from(s, dpr_key(), 0);
    if k < 0 {
        None
    } else {
        let rest = s.subrange(k + dpr_key().len(), s.len() as int);
        let c = first_index(rest, |ch: char| ch == ':');
        if c >= rest.len() {
            None
        } else {
            let t = trim(rest.subrange(c + 1, rest.len() as int));
            let e = first_index(t, |ch: char| ch == ',' || ch == '}' || ch == '\n');
            Some(trim(t.subrange(0, e)))
        }
    }
}

pub open spec fn digit_value(c: char) -> int {
    (c as int) - ('0' as int)
}

/// The number the decimal digits `ds` spell.
pub open spec fn digits_value(ds: Seq<char>) -> int
    decreases ds.len(),
{
    if ds.len() == 0 {
        0
    } else {
        10 * digits_value(ds.drop_last()) + digit_value(ds.last())
    }
}

/// Thousandths that fraction digits `f` spell, rounded half up on the
/// fourth digit.
pub open spec fn frac_milli(f: Seq<char>) -> int {
    (if f.len() > 0 { 100 * digit_value(f[0]) } else { 0 }) + (if f.len() > 1 { 10 * digit_value(f[1]) } else { 0 })
        + (if f.len() > 2 { digit_value(f[2]) } else { 0 }) + (if f.len() > 3 && f[3] >= '5' { 1int } else { 0int })
}

/// The value of a decimal in thousandths: an optional `+`, digits, and an
/// optional `.` with more digits, with at least one digit in all.
pub open spec fn decimal_milli(v: Seq<char>) -> Option<int> {
    let body = if v.len() > 0 && v[0] == '+' { v.drop_first() } else { v };
    let d = first_index(body, |c: char| !is_digit(c));
    let int_part = digits_value(body.subrange(0, d));
    let after = body.subrange(d, body.len() as int);
    if after.len() == 0 {
        if d == 0 {
            None
        } else {
            Some(1000 * int_part)
        }
    } else if after[0] != '.' {
        None
    } else {
        let frac = after.drop_first();
        if first_index(frac, |c: char| !is_digit(c)) < frac.len() || (d == 0 && frac.len() == 0) {
            None
        } else {
            Some(1000 * int_part + frac_milli(frac))
        }
    }
}

/// The ratio a configuration text gives, in thousandths, capped at
/// `DPR_READ_CAP`.
pub open spec fn dpr_of_text(s: Seq<char>) -> Option<int> {
    match dpr_value_text(s) {
        None => None,
        Some(v) => match decimal_milli(v) {
            None => None,
            Some(m) => Some(capped(m)),
        },
    }
}

fn chars_of(text: &str) -> (r: Vec<char>)
    ensures
        r@ == text@,
{
    let n = text.unicode_len();
    let mut out: Vec<char> = Vec::new();
    let mut i: usize = 0;
    while i < n
        invariant
            n == text@.len(),
            i <= n,
            out@ == text@.subrange(0, i as int),
        decreases n - i,
    {
        out.push(text.get_char(i));
        assert(out@ =~= text@.subrange(0, i as int + 1));
        i = i + 1;
    }
    assert(out@ =~= text@);
    out
}

fn find_key(s: &Vec<char>) -> (r: Option<usize>)
    ensures
        match r {
            Some(k) => find_from(s@, dpr_key(), 0) == k as int,
            None => find_from(s@, dpr_key(), 0) < 0,
        },
{
    let key: Vec<char> = vec!['d', 'e', 'v', 'i', 'c', 'e', '_', 'p', 'i', 'x', 'e', 'l', '_', 'r', 'a', 't', 'i', 'o'];
    assert(key@ =~= dpr_key());
    let klen = key.len();
    let mut i: usize = 0;
    let n = s.len();
    while klen <= n && i <= n - klen
        invariant
            key@ == dpr_key(),
            klen == 18,
            n == s@.len(),
            find_from(s@, dpr_key(), 0) == find_from(s@, dpr_key(), i as int),
        decreases s@.len() - i,
    {
        let mut j: usize = 0;
        let mut same = true;
        while j < klen
            invariant
                key@ == dpr_key(),
                klen == 18,
                i + klen <= s@.len(),
                n == s@.len(),
                j <= klen,
                same == forall|t: int| 0 <= t < j ==> s@[i + t] == key@[t],
            decreases klen - j,
        {
            if s[i + j] != key[j] {
                same = false;
            }
            j = j + 1;
        }
        if same {
            assert(s@.subrange(i as int, i + klen) =~= key@);
            return Some(i);
        }
        assert(!occurs_at(s@, dpr_key(), i as int)) by {
            if s@.subrange(i as int, i + klen) == key@ {
                let t = choose|t: int| 0 <= t < klen && s@[i + t] != key@[t];
                assert(s@.subrange(i as int, i + klen)[t] == s@[i + t]);
            }
        }
        i = i + 1;
    }
    None
}

/// Offset from `lo` of the first `:` in `s[lo..hi]`; `hi - lo` where there
/// is none.
fn scan_until_colon(s: &Vec<char>, lo: usize, hi: usize) -> (r: usize)
    requires
        lo <= hi <= s@.len(),
    ensures
        r as int == first_index(s@.subrange(lo as int, hi as int), |ch: char| ch == ':'),
        r <= hi - lo,
{
    let mut i: usize = lo;
    while i < hi && s[i] != ':'
        invariant
            lo <= i <= hi <= s@.len(),
            first_index(s@.subrange(lo as int, hi as int), |ch: char| ch == ':') == (i - lo) + first_index(
                s@.subrange(i as int, hi as int),
                |ch: char| ch == ':',
            ),
        decreases hi - i,
    {
        assert(s@.subrange(i as int, hi as int).drop_first() =~= s@.subrange(i as int + 1, hi as int));
        i = i + 1;
    }
    i - lo
}

/// Offset from `lo` of the first `,`, `}` or newline in `s[lo..hi]`;
/// `hi - lo` where there is none.
fn scan_until_value_end(s: &Vec<char>, lo: usize, hi: usize) -> (r: usize)
    requires
        lo <= hi <= s@.len(),
    ensures
        r as int == first_index(
            s@.subrange(lo as int, hi as int),
            |ch: char| ch == ',' || ch == '}' || ch == '\n',
        ),
        r <= hi - lo,
{
    let mut i: usize = lo;
    while i < hi && s[i] != ',' && s[i] != '}' && s[i] != '\n'
        invariant
            lo <= i <= hi <= s@.len(),
            first_index(s@.subrange(lo as int, hi as int), |ch: char| ch == ',' || ch == '}' || ch == '\n')
                == (i - lo) + first_index(
                s@.subrange(i as int, hi as int),
                |ch: char| ch == ',' || ch == '}' || ch == '\n',
            ),
        decreases hi - i,
    {
        assert(s@.subrange(i as int, hi as int).drop_first() =~= s@.subrange(i as int + 1, hi as int));
        i = i + 1;
    }
    i - lo
}

fn ws(c: char) -> (r: bool)
    ensures
        r == is_ws(c),
{
    c == ' ' || c == '\t' || c == '\n' || c == '\r' || c == '\x0b' || c == '\x0c'
}

/// Bounds of `trim(s[lo..hi])` within `s`.
fn trim_bounds(s: &Vec<char>, lo: usize, hi: usize) -> (r: (usize, usize))
    requires
        lo <= hi <= s@.len(),
    ensures
        lo <= r.0 <= r.1 <= hi,
        s@.subrange(r.0 as int, r.1 as int) == trim(s@.subrange(lo as int, hi as int)),
{
    let mut a: usize = lo;
    while a < hi && ws(s[a])
        invariant
            lo <= a <= hi <= s@.len(),
            trim_start(s@.subrange(lo as int, hi as int)) == trim_start(s@.subrange(a as int, hi as int)),
        decreases hi - a,
    {
        assert(s@.subrange(a as int, hi as int).drop_first() =~= s@.subrange(a as int + 1, hi as int));
        a = a + 1;
    }
    assert(trim_start(s@.subrange(a as int, hi as int)) == s@.subrange(a as int, hi as int));
    let mut b: usize = hi;
    while b > a && ws(s[b - 1])
        invariant
            lo <= a <= b <= hi <= s@.len(),
            trim_end(s@.subrange(a as int, hi as int)) == trim_end(s@.subrange(a as int, b as int)),
        decreases b - a,
    {
        assert(s@.subrange(a as int, b as int).drop_last() =~= s@.subrange(a as int, b as int - 1));
        b = b - 1;
    }
    (a, b)
}

fn digit_exec(c: char) -> (r: bool)
    ensures
        r == is_digit(c),
{
    '0' <= c && c <= '9'
}

proof fn lemma_digits_push(ds: Seq<char>, c: char)
    ensures
        digits_value(ds.push(c)) == 10 * digits_value(ds) + digit_value(c),
{
    assert(ds.push(c).drop_last() =~= ds);
}

proof fn lemma_digits_nonneg(ds: Seq<char>)
    requires
        forall|i: int| 0 <= i < ds.len() ==> is_digit(#[trigger] ds[i]),
    ensures
        digits_value(ds) >= 0,
    decreases ds.len(),
{
    if ds.len() > 0 {
        lemma_digits_nonneg(ds.drop_last());
    }
}

pub open spec fn capped(m: int) -> int {
    if m > DPR_READ_CAP {
        DPR_READ_CAP as int
    } else {
        m
    }
}

/// Reads the run of digits that starts at `start`, its value capped.
fn scan_int_part(s: &Vec<char>, start: usize, hi: usize) -> (r: (usize, u64))
    requires
        start <= hi <= s@.len(),
    ensures
        start <= r.0 <= hi,
        first_index(s@.subrange(start as int, hi as int), |c: char| !is_digit(c)) == r.0 - start,
        r.1 as int == capped(digits_value(s@.subrange(start as int, r.0 as int))),
{
    let mut i: usize = start;
    let mut acc: u64 = 0;
    while i < hi && digit_exec(s[i])
        invariant
            start <= i <= hi <= s@.len(),
            first_index(s@.subrange(start as int, hi as int), |c: char| !is_digit(c)) == (i - start)
                + first_index(s@.subrange(i as int, hi as int), |c: char| !is_digit(c)),
            forall|t: int| start <= t < i ==> is_digit(#[trigger] s@[t]),
            acc as int == capped(digits_value(s@.subrange(start as int, i as int))),
        decreases hi - i,
    {
        assert(s@.subrange(i as int, hi as int).drop_first() =~= s@.subrange(i as int + 1, hi as int));
        let d = (s[i] as u32 - '0' as u32) as u64;
        proof {
            let pre = s@.subrange(start as int, i as int);
            assert(s@.subrange(start as int, i as int + 1) =~= pre.push(s@[i as int]));
            lemma_digits_push(pre, s@[i as int]);
            assert forall|t: int| 0 <= t < pre.len() implies is_digit(#[trigger] pre[t]) by {
                assert(pre[t] == s@[start + t]);
            }
            lemma_digits_nonneg(pre);
        }
        acc = acc * 10 + d;
        if acc > DPR_READ_CAP as u64 {
            acc = DPR_READ_CAP as u64;
        }
        i = i + 1;
    }
    if i < hi {
        assert(first_index(s@.subrange(i as int, hi as int), |c: char| !is_digit(c)) == 0);
    }
    (i, acc)
}

/// Reads the fraction digits that start at `fs`: where they run, and the
/// thousandths they spell, the rounding step apart.
fn scan_frac_part(s: &Vec<char>, fs: usize, hi: usize) -> (r: (usize, u64, bool))
    requires
        fs <= hi <= s@.len(),
    ensures
        fs <= r.0 <= hi,
        first_index(s@.subrange(fs as int, hi as int), |c: char| !is_digit(c)) == r.0 - fs,
        r.1 + (if r.2 { 1int } else { 0int }) == frac_milli(s@.subrange(fs as int, r.0 as int)),
        r.1 <= 999,
{
    let mut j: usize = fs;
    let mut fm: u64 = 0;
    let mut round_up = false;
    while j < hi && digit_exec(s[j])
        invariant
            fs <= j <= hi <= s@.len(),
            first_index(s@.subrange(fs as int, hi as int), |c: char| !is_digit(c)) == (j - fs)
                + first_index(s@.subrange(j as int, hi as int), |c: char| !is_digit(c)),
            forall|t: int| fs <= t < j ==> is_digit(#[trigger] s@[t]),
            fm + (if round_up { 1int } else { 0int }) == frac_milli(s@.subrange(fs as int, j as int)),
            fm <= (if j - fs >= 3 { 999int } else if j - fs == 2 { 990int } else if j - fs == 1 { 900int } else { 0int }),
            j - fs <= 3 ==> !round_up,
        decreases hi - j,
    {
        assert(s@.subrange(j as int, hi as int).drop_first() =~= s@.subrange(j as int + 1, hi as int));
        let d = (s[j] as u32 - '0' as u32) as u64;
        let k = j - fs;
        if k == 0 {
            fm = fm + 100 * d;
        } else if k == 1 {
            fm = fm + 10 * d;
        } else if k == 2 {
            fm = fm + d;
        } else if k == 3 {
            round_up = s[j] >= '5';
        }
        proof {
            let f1 = s@.subrange(fs as int, j as int + 1);
            let f0 = s@.subrange(fs as int, j as int);
            assert(forall|t: int| 0 <= t < f0.len() ==> f1[t] == f0[t]);
            assert(f1[k as int] == s@[j as int]);
        }
        j = j + 1;
    }
    if j < hi {
        assert(first_index(s@.subrange(j as int, hi as int), |c: char| !is_digit(c)) == 0);
    }
    (j, fm, round_up)
}

/// Reads a decimal from `s[lo..hi]` in thousandths, capped.
fn parse_decimal(s: &Vec<char>, lo: usize, hi: usize) -> (r: Option<u32>)
    requires
        lo <= hi <= s@.len(),
    ensures
        match decimal_milli(s@.subrange(lo as int, hi as int)) {
            None => r is None,
            Some(m) => r matches Some(x) && x as int == capped(m),
        },
{
    let ghost v = s@.subrange(lo as int, hi as int);
    let mut start: usize = lo;
    if start < hi && s[start] == '+' {
        start = start + 1;
    }
    let ghost body = s@.subrange(start as int, hi as int);
    assert(body =~= (if v.len() > 0 && v[0] == '+' { v.drop_first() } else { v }));
    let (i, acc) = scan_int_part(s, start, hi);
    let d_len = i - start;
    assert(body.subrange(0, d_len as int) =~= s@.subrange(start as int, i as int));
    assert(body.subrange(d_len as int, body.len() as int) =~= s@.subrange(i as int, hi as int));
    let ghost ip = digits_value(s@.subrange(start as int, i as int));
    proof {
        let ds = s@.subrange(start as int, i as int);
        lemma_int_part_digits(s@, start as int, i as int, hi as int);
        lemma_digits_nonneg(ds);
    }
    if i == hi {
        if d_len == 0 {
            return None;
        }
        let m = acc * 1000;
        return Some(if m > DPR_READ_CAP as u64 { DPR_READ_CAP } else { m as u32 });
    }
    if s[i] != '.' {
        return None;
    }
    let fs = i + 1;
    assert(s@.subrange(i as int, hi as int).drop_first() =~= s@.subrange(fs as int, hi as int));
    let (j, fm, round_up) = scan_frac_part(s, fs, hi);
    if j < hi {
        return None;
    }
    if d_len == 0 && fs == hi {
        return None;
    }
    let m = acc * 1000 + fm + if round_up { 1 } else { 0 };
    Some(if m > DPR_READ_CAP as u64 { DPR_READ_CAP } else { m as u32 })
}

proof fn lemma_int_part_digits(s: Seq<char>, start: int, i: int, hi: int)
    requires
        0 <= start <= i <= hi <= s.len(),
        first_index(s.subrange(start, hi), |c: char| !is_digit(c)) == i - start,
    ensures
        forall|t: int| 0 <= t < i - start ==> is_digit(#[trigger] s.subrange(start, i)[t]),
{
    lemma_first_index_prefix(s.subrange(start, hi), |c: char| !is_digit(c));
    assert forall|t: int| 0 <= t < i - start implies is_digit(#[trigger] s.subrange(start, i)[t]) by {
        assert(s.subrange(start, i)[t] == s.subrange(start, hi)[t]);
    }
}

proof fn lemma_first_index_prefix(s: Seq<char>, f: spec_fn(char) -> bool)
    ensures
        0 <= first_index(s, f) <= s.len(),
        forall|t: int| 0 <= t < first_index(s, f) ==> !f(#[trigger] s[t]),
    decreases s.len(),
{
    if s.len() > 0 && !f(s[0]) {
        lemma_first_index_prefix(s.drop_first(), f);
        assert forall|t: int| 0 <= t < first_index(s, f) implies !f(#[trigger] s[t]) by {
            if t > 0 {
                assert(s[t] == s.drop_first()[t - 1]);
            }
        }
    }
}

/// The device pixel ratio a configuration text gives, in thousandths.
pub fn parse_dpr_from_json(json: &str) -> (r: Option<u32>)
    ensures
        match dpr_of_text(json@) {
            None => r is None,
            Some(m) => r matches Some(x) && x as int == m,
        },
{
    let s = chars_of(json);
    let k = match find_key(&s) {
        Some(k) => k,
        None => return None,
    };
    proof {
        assert(occurs_at(s@, dpr_key(), k as int)) by {
            lemma_find_from_occurs(s@, dpr_key(), 0);
        }
    }
    let n = s.len();
    let rest_lo = k + 18;
    let c = scan_until_colon(&s, rest_lo, n);
    if c >= n - rest_lo {
        return None;
    }
    let after = rest_lo + c + 1;
    assert(s@.subrange(rest_lo as int, n as int).subrange(c + 1, n - rest_lo) =~= s@.subrange(after as int, n as int));
    let (a, b) = trim_bounds(&s, after, n);
    let e = scan_until_value_end(&s, a, b);
    assert(s@.subrange(a as int, b as int).subrange(0, e as int) =~= s@.subrange(a as int, a + e));
    let (va, vb) = trim_bounds(&s, a, a + e);
    parse_decimal(&s, va, vb)
}

proof fn lemma_find_from_occurs(s: Seq<char>, pat: Seq<char>, i: int)
    requires
        find_from(s, pat, i) >= 0,
    ensures
        occurs_at(s, pat, find_from(s, pat, i)),
    decreases s.len() - i,
{
    if i < 0 || i + pat.len() > s.len() {
    } else if pat.len() == 0 || occurs_at(s, pat, i) {
        if pat.len() == 0 {
            assert(s.subrange(i, i) =~= pat);
        }
    } else {
        lemma_find_from_occurs(s, pat, i + 1);
    }
}

} // verus!

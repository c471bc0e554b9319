//! Line tokenizers: apply one of the supported line patterns to a raw log
//! line and extract its named fields, or report a non-match.
//!
//! Lines are byte sequences. The patterns are stated as spec functions in
//! terms of greedy scans (maximal digit / non-space runs), which is how the
//! line grammars are defined.

use vstd::prelude::*;

verus! {

pub open spec fn is_space(c: u8) -> bool {
    c == 32 || c == 9 || c == 10 || c == 11 || c == 12 || c == 13
}

pub open spec fn is_digit(c: u8) -> bool {
    48 <= c <= 57
}

/// Numeric value of one digit byte.
pub open spec fn digit_of(c: u8) -> int {
    c - 48
}

/// End of the maximal non-space run starting at `i`.
pub open spec fn token_end(s: Seq<u8>, i: int) -> int
    decreases s.len() - i,
{
    if 0 <= i < s.len() && !is_space(s[i]) {
        token_end(s, i + 1)
    } else {
        i
    }
}

/// End of the maximal digit run starting at `i`.
pub open spec fn digit_run_end(s: Seq<u8>, i: int) -> int
    decreases s.len() - i,
{
    if 0 <= i < s.len() && is_digit(s[i]) {
        digit_run_end(s, i + 1)
    } else {
        i
    }
}

/// End of the maximal space run starting at `i`.
pub open spec fn space_run_end(s: Seq<u8>, i: int) -> int
    decreases s.len() - i,
{
    if 0 <= i < s.len() && is_space(s[i]) {
        space_run_end(s, i + 1)
    } else {
        i
    }
}

pub proof fn lemma_token_end_bounds(s: Seq<u8>, i: int)
    requires
        0 <= i <= s.len(),
    ensures
        i <= token_end(s, i) <= s.len(),
    decreases s.len() - i,
{
    if i < s.len() && !is_space(s[i]) {
        lemma_token_end_bounds(s, i + 1);
    }
}

/// The whitespace-delimited tokens of `s` from position `i` on.
pub open spec fn tokens_from(s: Seq<u8>, i: int) -> Seq<Seq<u8>>
    decreases s.len() - i,
    via tokens_from_dec
{
    if !(0 <= i < s.len()) {
        Seq::empty()
    } else if is_space(s[i]) {
        tokens_from(s, i + 1)
    } else {
        seq![s.subrange(i, token_end(s, i))] + tokens_from(s, token_end(s, i))
    }
}

#[via_fn]
proof fn tokens_from_dec(s: Seq<u8>, i: int) {
    if 0 <= i < s.len() && !is_space(s[i]) {
        lemma_token_end_bounds(s, i + 1);
    }
}

/// The whitespace-delimited tokens of a whole line.
pub open spec fn tokens_of(s: Seq<u8>) -> Seq<Seq<u8>> {
    tokens_from(s, 0)
}

/// A non-empty all-digit byte sequence.
pub open spec fn is_digits(t: Seq<u8>) -> bool {
    t.len() > 0 && forall|k: int| 0 <= k < t.len() ==> is_digit(t[k])
}

/// Numeric value of an all-digit byte sequence, most significant first.
pub open spec fn digits_val(t: Seq<u8>) -> int
    decreases t.len(),
{
    if t.len() == 0 {
        0
    } else {
        digits_val(t.drop_last()) * 10 + digit_of(t[t.len() - 1])
    }
}

proof fn lemma_digits_val_nonneg(t: Seq<u8>)
    requires
        forall|k: int| 0 <= k < t.len() ==> is_digit(t[k]),
    ensures
        digits_val(t) >= 0,
    decreases t.len(),
{
    if t.len() > 0 {
        lemma_digits_val_nonneg(t.drop_last());
    }
}

/// The value of a digit string does not decrease as the string grows to the
/// right.
proof fn lemma_digits_val_prefix_le(t: Seq<u8>, i: int, j: int)
    requires
        forall|k: int| 0 <= k < t.len() ==> is_digit(t[k]),
        0 <= i <= j <= t.len(),
    ensures
        digits_val(t.subrange(0, i)) <= digits_val(t.subrange(0, j)),
    decreases j - i,
{
    if i < j {
        lemma_digits_val_prefix_le(t, i, j - 1);
        assert(t.subrange(0, j).drop_last() =~= t.subrange(0, j - 1));
        lemma_digits_val_nonneg(t.subrange(0, j - 1));
    }
}

/// Greedy digit-run shape `\d+-\d+-\d+` of a date token.
pub open spec fn is_date_token(t: Seq<u8>) -> bool {
    let a = digit_run_end(t, 0);
    let b = digit_run_end(t, a + 1);
    &&& 0 < a < t.len() && t[a] == 45
    &&& a + 1 < b < t.len() && t[b] == 45
    &&& b + 1 < digit_run_end(t, b + 1) && digit_run_end(t, b + 1) == t.len()
}

/// Greedy digit-run shape `\d+:\d+:\d+` of a time token.
pub open spec fn is_time_token(t: Seq<u8>) -> bool {
    let a = digit_run_end(t, 0);
    let b = digit_run_end(t, a + 1);
    &&& 0 < a < t.len() && t[a] == 58
    &&& a + 1 < b < t.len() && t[b] == 58
    &&& b + 1 < digit_run_end(t, b + 1) && digit_run_end(t, b + 1) == t.len()
}

/// A resource-log data line: a date token, a time token, then at least two
/// all-digit tokens, starting at the first byte of the line. Trailing tokens
/// are ignored.
pub open spec fn mem_line_matches(s: Seq<u8>) -> bool {
    &&& s.len() > 0 && !is_space(s[0])
    &&& tokens_of(s).len() >= 4
    &&& is_date_token(tokens_of(s)[0])
    &&& is_time_token(tokens_of(s)[1])
    &&& is_digits(tokens_of(s)[2])
    &&& is_digits(tokens_of(s)[3])
}

/// The "used" field of a resource-log line: its fourth whitespace-delimited
/// token.
pub open spec fn mem_used_tok(s: Seq<u8>) -> Seq<u8> {
    tokens_of(s)[3]
}

/// Fields extracted from one resource-log line.
pub struct MemFields {
    /// The date token (first token).
    pub date: Vec<u8>,
    /// The time token (second token).
    pub time: Vec<u8>,
    /// The digits of the "used" measurement (fourth token).
    pub used: Vec<u8>,
}

fn skip_spaces(s: &[u8], from: usize) -> (j: usize)
    requires
        from <= s@.len(),
    ensures
        from <= j <= s@.len(),
        tokens_from(s@, j as int) == tokens_from(s@, from as int),
        j < s@.len() ==> !is_space(s@[j as int]),
    decreases s@.len() - from,
{
    let mut j = from;
    while j < s.len() && (s[j] == 32 || s[j] == 9 || s[j] == 10 || s[j] == 11 || s[j] == 12 || s[j]
        == 13)
        invariant
            from <= j <= s@.len(),
            tokens_from(s@, j as int) == tokens_from(s@, from as int),
        decreases s@.len() - j,
    {
        j = j + 1;
    }
    j
}

fn scan_token(s: &[u8], from: usize) -> (j: usize)
    requires
        from <= s@.len(),
    ensures
        j as int == token_end(s@, from as int),
        from <= j <= s@.len(),
{
    let mut j = from;
    while j < s.len() && !(s[j] == 32 || s[j] == 9 || s[j] == 10 || s[j] == 11 || s[j] == 12 || s[j]
        == 13)
        invariant
            from <= j <= s@.len(),
            token_end(s@, j as int) == token_end(s@, from as int),
        decreases s@.len() - j,
    {
        j = j + 1;
    }
    j
}

pub(crate) fn scan_digits(s: &[u8], from: usize) -> (j: usize)
    requires
        from <= s@.len(),
    ensures
        j as int == digit_run_end(s@, from as int),
        from <= j <= s@.len(),
{
    let mut j = from;
    while j < s.len() && 48 <= s[j] && s[j] <= 57
        invariant
            from <= j <= s@.len(),
            digit_run_end(s@, j as int) == digit_run_end(s@, from as int),
        decreases s@.len() - j,
    {
        j = j + 1;
    }
    j
}

pub(crate) fn copy_range(s: &[u8], from: usize, to: usize) -> (v: Vec<u8>)
    requires
        from <= to <= s@.len(),
    ensures
        v@ == s@.subrange(from as int, to as int),
{
    let mut v: Vec<u8> = Vec::new();
    let mut j = from;
    while j < to
        invariant
            from <= j <= to <= s@.len(),
            v@ == s@.subrange(from as int, j as int),
        decreases to - j,
    {
        v.push(s[j]);
        proof {
            assert(s@.subrange(from as int, j + 1) =~= s@.subrange(from as int, j as int).push(
                s@[j as int],
            ));
        }
        j = j + 1;
    }
    v
}

/// Runtime check of the greedy `digits sep digits sep digits` shape that
/// `is_date_token` and `is_time_token` state, on a whole token.
fn check_sep_triple(t: &[u8], sep: u8) -> (b: bool)
    ensures
        b == ({
            let a = digit_run_end(t@, 0);
            let b2 = digit_run_end(t@, a + 1);
            &&& 0 < a < t@.len() && t@[a] == sep
            &&& a + 1 < b2 < t@.len() && t@[b2] == sep
            &&& b2 + 1 < digit_run_end(t@, b2 + 1) && digit_run_end(t@, b2 + 1) == t@.len()
        }),
{
    let a = scan_digits(t, 0);
    if a == 0 || a >= t.len() || t[a] != sep {
        return false;
    }
    let b2 = scan_digits(t, a + 1);
    if b2 == a + 1 || b2 >= t.len() || t[b2] != sep {
        return false;
    }
    let c = scan_digits(t, b2 + 1);
    c > b2 + 1 && c == t.len()
}

/// Runtime check of `is_digits` on a whole token.
fn check_digits(t: &[u8]) -> (b: bool)
    ensures
        b == is_digits(t@),
{
    let j = scan_digits(t, 0);
    proof {
        if j == t@.len() {
            lemma_digit_run_full(t@, 0);
        } else {
            lemma_digit_run_not_digit(t@, 0);
        }
    }
    t.len() > 0 && j == t.len()
}

/// Every byte before the end of a digit run is a digit.
proof fn lemma_digit_run_full(s: Seq<u8>, i: int)
    requires
        0 <= i <= s.len(),
    ensures
        forall|k: int| i <= k < digit_run_end(s, i) ==> is_digit(s[k]),
    decreases s.len() - i,
{
    if i < s.len() && is_digit(s[i]) {
        lemma_digit_run_full(s, i + 1);
    }
}

/// The byte at the end of a digit run, if any, is not a digit.
proof fn lemma_digit_run_not_digit(s: Seq<u8>, i: int)
    requires
        0 <= i <= s.len(),
        digit_run_end(s, i) < s.len(),
    ensures
        !is_digit(s[digit_run_end(s, i)]),
    decreases s.len() - i,
{
    if i < s.len() && is_digit(s[i]) {
        lemma_digit_run_not_digit(s, i + 1);
    }
}

/// Tokenize one resource-log line: `Some` exactly when the line matches the
/// resource-log pattern. The `used` field is the line's fourth
/// whitespace-delimited token, digits only.
pub fn tokenize_mem_line(line: &[u8]) -> (r: Option<MemFields>)
    ensures
        (r is Some) == mem_line_matches(line@),
        r matches Some(f) ==> {
            &&& f.date@ == tokens_of(line@)[0]
            &&& f.time@ == tokens_of(line@)[1]
            &&& f.used@ == mem_used_tok(line@)
            &&& is_date_token(f.date@)
            &&& is_time_token(f.time@)
            &&& is_digits(f.used@)
        },
{
    let s = line;
    if s.len() == 0 || s[0] == 32 || s[0] == 9 || s[0] == 10 || s[0] == 11 || s[0] == 12 || s[0]
        == 13 {
        return None;
    }
    // token 0: date
    let e0 = scan_token(s, 0);
    let ghost tok0 = s@.subrange(0, e0 as int);
    assert(tokens_of(s@) == seq![tok0] + tokens_from(s@, e0 as int));
    let date = copy_range(s, 0, e0);
    // token 1: time
    let t1 = skip_spaces(s, e0);
    if t1 == s.len() {
        assert(tokens_of(s@).len() == 1);
        return None;
    }
    let e1 = scan_token(s, t1);
    let ghost tok1 = s@.subrange(t1 as int, e1 as int);
    assert(tokens_from(s@, t1 as int) == seq![tok1] + tokens_from(s@, e1 as int));
    let time = copy_range(s, t1, e1);
    // token 2: total
    let t2 = skip_spaces(s, e1);
    if t2 == s.len() {
        assert(tokens_of(s@).len() == 2);
        return None;
    }
    let e2 = scan_token(s, t2);
    let ghost tok2 = s@.subrange(t2 as int, e2 as int);
    assert(tokens_from(s@, t2 as int) == seq![tok2] + tokens_from(s@, e2 as int));
    let total = copy_range(s, t2, e2);
    // token 3: used
    let t3 = skip_spaces(s, e2);
    if t3 == s.len() {
        assert(tokens_of(s@).len() == 3);
        return None;
    }
    let e3 = scan_token(s, t3);
    let ghost tok3 = s@.subrange(t3 as int, e3 as int);
    assert(tokens_from(s@, t3 as int) == seq![tok3] + tokens_from(s@, e3 as int));
    let used = copy_range(s, t3, e3);
    assert(tokens_of(s@).len() >= 4);
    assert(tokens_of(s@)[0] == tok0 && tokens_of(s@)[1] == tok1 && tokens_of(s@)[2] == tok2
        && tokens_of(s@)[3] == tok3);
    if !check_sep_triple(&date, 45) {
        return None;
    }
    if !check_sep_triple(&time, 58) {
        return None;
    }
    if !check_digits(&total) {
        return None;
    }
    if !check_digits(&used) {
        return None;
    }
    Some(MemFields { date, time, used })
}

/// Numeric value of an all-digit token, `None` when it does not fit in u64.
pub fn parse_digits_u64(t: &[u8]) -> (r: Option<u64>)
    requires
        is_digits(t@),
    ensures
        (r is Some) == (digits_val(t@) <= u64::MAX),
        r matches Some(v) ==> v as int == digits_val(t@),
{
    let mut acc: u64 = 0;
    let mut i: usize = 0;
    while i < t.len()
        invariant
            is_digits(t@),
            i <= t@.len(),
            acc as int == digits_val(t@.subrange(0, i as int)),
        decreases t@.len() - i,
    {
        let d = t[i] - 48;
        proof {
            assert(t@.subrange(0, i + 1).drop_last() =~= t@.subrange(0, i as int));
        }
        if acc > 1844674407370955161u64 || (acc == 1844674407370955161u64 && d > 5) {
            proof {
                lemma_digits_val_prefix_le(t@, i + 1, t@.len() as int);
                assert(t@.subrange(0, t@.len() as int) =~= t@);
            }
            return None;
        }
        acc = acc * 10 + (d as u64);
        i = i + 1;
    }
    proof {
        assert(t@.subrange(0, t@.len() as int) =~= t@);
    }
    Some(acc)
}

/// Numeric value of an all-digit token, `None` when it does not fit in u32.
pub fn parse_digits_u32(t: &[u8]) -> (r: Option<u32>)
    requires
        is_digits(t@),
    ensures
        (r is Some) == (digits_val(t@) <= u32::MAX),
        r matches Some(v) ==> v as int == digits_val(t@),
{
    match parse_digits_u64(t) {
        None => None,
        Some(v) => if v > 0xffff_ffffu64 {
            None
        } else {
            Some(v as u32)
        },
    }
}

/// Index of the first occurrence of `c` at or after `i`; length if none.
pub open spec fn find_byte(s: Seq<u8>, c: u8, i: int) -> int
    decreases s.len() - i,
{
    if !(0 <= i < s.len()) {
        s.len() as int
    } else if s[i] == c {
        i
    } else {
        find_byte(s, c, i + 1)
    }
}

pub proof fn lemma_find_byte_bounds(s: Seq<u8>, c: u8, i: int)
    requires
        0 <= i <= s.len(),
    ensures
        i <= find_byte(s, c, i) <= s.len(),
        find_byte(s, c, i) < s.len() ==> s[find_byte(s, c, i)] == c,
    decreases s.len() - i,
{
    if i < s.len() && s[i] != c {
        lemma_find_byte_bounds(s, c, i + 1);
    }
}

/// End position after dropping trailing spaces, scanning down from `i`.
pub open spec fn rstrip_end(t: Seq<u8>, i: int) -> int
    decreases i,
{
    if i <= 0 || i > t.len() {
        0
    } else if is_space(t[i - 1]) {
        rstrip_end(t, i - 1)
    } else {
        i
    }
}

/// `t` with leading and trailing spaces removed.
pub open spec fn trim(t: Seq<u8>) -> Seq<u8> {
    let a = space_run_end(t, 0);
    let b = rstrip_end(t, t.len() as int);
    if a <= b {
        t.subrange(a, b)
    } else {
        Seq::empty()
    }
}

/// A pipe-delimited thread segment: optional spaces, digits, `th`, optional
/// spaces.
pub open spec fn is_th_segment(t: Seq<u8>) -> bool {
    let w = space_run_end(t, 0);
    let dr = digit_run_end(t, w);
    &&& w < dr
    &&& dr + 2 <= t.len()
    &&& t[dr] == 116 && t[dr + 1] == 104
    &&& space_run_end(t, dr + 2) == t.len()
}

/// The digits of a thread segment.
pub open spec fn th_digits(t: Seq<u8>) -> Seq<u8> {
    t.subrange(space_run_end(t, 0), digit_run_end(t, space_run_end(t, 0)))
}

/// The first pipe at or after `i` that is followed (up to the next pipe) by
/// a thread segment, with one more pipe after that; length if none. This is
/// where a lazily scanning matcher settles on the benchmark-line pattern.
pub open spec fn find_th_pipe(s: Seq<u8>, i: int) -> int
    decreases s.len() - i,
    via find_th_pipe_dec
{
    if !(0 <= i < s.len()) {
        s.len() as int
    } else {
        let p = find_byte(s, 124, i);
        if p >= s.len() {
            s.len() as int
        } else {
            let q = find_byte(s, 124, p + 1);
            if q < s.len() && is_th_segment(s.subrange(p + 1, q)) && find_byte(s, 124, q + 1)
                < s.len() {
                p
            } else {
                find_th_pipe(s, p + 1)
            }
        }
    }
}

#[via_fn]
proof fn find_th_pipe_dec(s: Seq<u8>, i: int) {
    if 0 <= i < s.len() {
        lemma_find_byte_bounds(s, 124, i);
    }
}

pub proof fn lemma_find_th_pipe(s: Seq<u8>, i: int)
    requires
        0 <= i <= s.len(),
    ensures
        i <= find_th_pipe(s, i) <= s.len(),
        find_th_pipe(s, i) < s.len() ==> {
            let p = find_th_pipe(s, i);
            let q = find_byte(s, 124, p + 1);
            &&& s[p] == 124
            &&& p + 1 <= q < s.len()
            &&& is_th_segment(s.subrange(p + 1, q))
            &&& find_byte(s, 124, q + 1) < s.len()
        },
    decreases s.len() - i,
{
    if 0 <= i < s.len() {
        let p = find_byte(s, 124, i);
        lemma_find_byte_bounds(s, 124, i);
        if p < s.len() {
            lemma_find_byte_bounds(s, 124, p + 1);
            let q = find_byte(s, 124, p + 1);
            if q < s.len() && is_th_segment(s.subrange(p + 1, q)) && find_byte(s, 124, q + 1)
                < s.len() {
            } else {
                lemma_find_th_pipe(s, p + 1);
            }
        }
    }
}

/// Greedy shape `\d+-\d+-\d+T\d+:\d+:\d+\.\d+` of an ISO datetime token.
pub open spec fn is_iso_token(t: Seq<u8>) -> bool {
    let a = digit_run_end(t, 0);
    let b = digit_run_end(t, a + 1);
    let c = digit_run_end(t, b + 1);
    let d = digit_run_end(t, c + 1);
    let e = digit_run_end(t, d + 1);
    let f = digit_run_end(t, e + 1);
    &&& 0 < a < t.len() && t[a] == 45
    &&& a + 1 < b < t.len() && t[b] == 45
    &&& b + 1 < c < t.len() && t[c] == 84
    &&& c + 1 < d < t.len() && t[d] == 58
    &&& d + 1 < e < t.len() && t[e] == 58
    &&& e + 1 < f < t.len() && t[f] == 46
    &&& f + 1 < digit_run_end(t, f + 1) && digit_run_end(t, f + 1) == t.len()
}

/// A benchmark-log line: an ISO datetime token at the start of the line,
/// then somewhere a pipe-delimited thread segment followed by a
/// pipe-delimited stage segment.
pub open spec fn bench_line_matches(s: Seq<u8>) -> bool {
    &&& s.len() > 0 && !is_space(s[0])
    &&& token_end(s, 0) < s.len()
    &&& is_iso_token(s.subrange(0, token_end(s, 0)))
    &&& find_th_pipe(s, token_end(s, 0) + 1) < s.len()
}

/// The datetime token of a benchmark-log line.
pub open spec fn bench_dt(s: Seq<u8>) -> Seq<u8> {
    s.subrange(0, token_end(s, 0))
}

pub open spec fn bench_p1(s: Seq<u8>) -> int {
    find_th_pipe(s, token_end(s, 0) + 1)
}

pub open spec fn bench_p2(s: Seq<u8>) -> int {
    find_byte(s, 124, bench_p1(s) + 1)
}

pub open spec fn bench_p3(s: Seq<u8>) -> int {
    find_byte(s, 124, bench_p2(s) + 1)
}

/// The digits of the thread identifier of a benchmark-log line.
pub open spec fn bench_th_tok(s: Seq<u8>) -> Seq<u8> {
    th_digits(s.subrange(bench_p1(s) + 1, bench_p2(s)))
}

/// The stage label of a benchmark-log line: the segment between the second
/// and third relevant pipes, trimmed.
pub open spec fn bench_stage(s: Seq<u8>) -> Seq<u8> {
    trim(s.subrange(bench_p2(s) + 1, bench_p3(s)))
}

/// Fields extracted from one benchmark-log line.
pub struct BenchFields {
    /// The ISO datetime token (first token of the line).
    pub datetime: Vec<u8>,
    /// The digits of the thread identifier.
    pub th: Vec<u8>,
    /// The trimmed stage label.
    pub stage: Vec<u8>,
}

fn scan_spaces(t: &[u8], from: usize) -> (j: usize)
    requires
        from <= t@.len(),
    ensures
        j as int == space_run_end(t@, from as int),
        from <= j <= t@.len(),
{
    let mut j = from;
    while j < t.len() && (t[j] == 32 || t[j] == 9 || t[j] == 10 || t[j] == 11 || t[j] == 12 || t[j]
        == 13)
        invariant
            from <= j <= t@.len(),
            space_run_end(t@, j as int) == space_run_end(t@, from as int),
        decreases t@.len() - j,
    {
        j = j + 1;
    }
    j
}

fn scan_rstrip(t: &[u8]) -> (j: usize)
    ensures
        j as int == rstrip_end(t@, t@.len() as int),
        j <= t@.len(),
{
    let mut j = t.len();
    while j > 0 && (t[j - 1] == 32 || t[j - 1] == 9 || t[j - 1] == 10 || t[j - 1] == 11 || t[j - 1]
        == 12 || t[j - 1] == 13)
        invariant
            j <= t@.len(),
            rstrip_end(t@, j as int) == rstrip_end(t@, t@.len() as int),
        decreases j,
    {
        j = j - 1;
    }
    j
}

/// Copy of `trim(t@)`.
fn trim_copy(t: &[u8]) -> (v: Vec<u8>)
    ensures
        v@ == trim(t@),
{
    let a = scan_spaces(t, 0);
    let b = scan_rstrip(t);
    if a <= b {
        copy_range(t, a, b)
    } else {
        let v: Vec<u8> = Vec::new();
        assert(v@ =~= trim(t@));
        v
    }
}

fn find_byte_x(s: &[u8], c: u8, from: usize) -> (j: usize)
    requires
        from <= s@.len(),
    ensures
        j as int == find_byte(s@, c, from as int),
        from <= j <= s@.len(),
{
    let mut j = from;
    while j < s.len() && s[j] != c
        invariant
            from <= j <= s@.len(),
            find_byte(s@, c, j as int) == find_byte(s@, c, from as int),
        decreases s@.len() - j,
    {
        j = j + 1;
    }
    j
}

fn check_th_segment(t: &[u8]) -> (b: bool)
    ensures
        b == is_th_segment(t@),
{
    let w = scan_spaces(t, 0);
    let dr = scan_digits(t, w);
    if dr == w || t.len() - dr < 2 {
        return false;
    }
    if t[dr] != 116 || t[dr + 1] != 104 {
        return false;
    }
    let z = scan_spaces(t, dr + 2);
    z == t.len()
}

fn check_iso_token(t: &[u8]) -> (b: bool)
    ensures
        b == is_iso_token(t@),
{
    let a = scan_digits(t, 0);
    if a == 0 || a >= t.len() || t[a] != 45 {
        return false;
    }
    let b2 = scan_digits(t, a + 1);
    if b2 == a + 1 || b2 >= t.len() || t[b2] != 45 {
        return false;
    }
    let c = scan_digits(t, b2 + 1);
    if c == b2 + 1 || c >= t.len() || t[c] != 84 {
        return false;
    }
    let d = scan_digits(t, c + 1);
    if d == c + 1 || d >= t.len() || t[d] != 58 {
        return false;
    }
    let e = scan_digits(t, d + 1);
    if e == d + 1 || e >= t.len() || t[e] != 58 {
        return false;
    }
    let f = scan_digits(t, e + 1);
    if f == e + 1 || f >= t.len() || t[f] != 46 {
        return false;
    }
    let g = scan_digits(t, f + 1);
    g > f + 1 && g == t.len()
}

fn find_th_pipe_x(s: &[u8], from: usize) -> (p: usize)
    requires
        from <= s@.len(),
    ensures
        p as int == find_th_pipe(s@, from as int),
        from <= p <= s@.len(),
{
    let mut i = from;
    loop
        invariant
            from <= i <= s@.len(),
            find_th_pipe(s@, i as int) == find_th_pipe(s@, from as int),
        decreases s@.len() - i,
    {
        if i == s.len() {
            return i;
        }
        let p = find_byte_x(s, 124, i);
        if p == s.len() {
            return p;
        }
        let q = find_byte_x(s, 124, p + 1);
        if q < s.len() {
            let seg = copy_range(s, p + 1, q);
            if check_th_segment(&seg) {
                let r = find_byte_x(s, 124, q + 1);
                if r < s.len() {
                    return p;
                }
            }
        }
        i = p + 1;
    }
}

/// Tokenize one benchmark-log line: `Some` exactly when the line matches
/// the benchmark-log pattern.
pub fn tokenize_bench_line(line: &[u8]) -> (r: Option<BenchFields>)
    ensures
        (r is Some) == bench_line_matches(line@),
        r matches Some(f) ==> {
            &&& f.datetime@ == bench_dt(line@)
            &&& f.th@ == bench_th_tok(line@)
            &&& f.stage@ == bench_stage(line@)
            &&& is_iso_token(f.datetime@)
            &&& is_digits(f.th@)
        },
{
    let s = line;
    if s.len() == 0 || s[0] == 32 || s[0] == 9 || s[0] == 10 || s[0] == 11 || s[0] == 12 || s[0]
        == 13 {
        return None;
    }
    let e0 = scan_token(s, 0);
    let dt = copy_range(s, 0, e0);
    if !check_iso_token(&dt) {
        return None;
    }
    if e0 == s.len() {
        return None;
    }
    let p1 = find_th_pipe_x(s, e0 + 1);
    if p1 == s.len() {
        return None;
    }
    proof {
        lemma_find_th_pipe(s@, e0 as int + 1);
    }
    let p2 = find_byte_x(s, 124, p1 + 1);
    let seg = copy_range(s, p1 + 1, p2);
    let w = scan_spaces(&seg, 0);
    let dr = scan_digits(&seg, w);
    let th = copy_range(&seg, w, dr);
    proof {
        lemma_digit_run_full(seg@, w as int);
    }
    let p3 = find_byte_x(s, 124, p2 + 1);
    let stage_raw = copy_range(s, p2 + 1, p3);
    let stage = trim_copy(&stage_raw);
    Some(BenchFields { datetime: dt, th, stage })
}

/// `needle` occurs in `s` at position `i`.
pub open spec fn matches_at(s: Seq<u8>, needle: Seq<u8>, i: int) -> bool {
    0 <= i && i + needle.len() <= s.len() && s.subrange(i, i + needle.len()) == needle
}

/// `needle` occurs somewhere in `s`.
pub open spec fn contains_sub(s: Seq<u8>, needle: Seq<u8>) -> bool {
    exists|i: int| matches_at(s, needle, i)
}

fn match_at(s: &[u8], needle: &[u8], at: usize) -> (b: bool)
    requires
        at + needle@.len() <= s@.len(),
    ensures
        b == matches_at(s@, needle@, at as int),
{
    let n = needle.len();
    let sn = s.len();
    let mut k: usize = 0;
    while k < n
        invariant
            n == needle@.len(),
            sn == s@.len(),
            k <= n,
            at + n <= sn,
            forall|j: int| 0 <= j < k ==> s@[at + j] == needle@[j],
        decreases n - k,
    {
        if s[at + k] != needle[k] {
            proof {
                assert(s@.subrange(at as int, at + needle@.len())[k as int] == s@[at + k]);
            }
            return false;
        }
        k = k + 1;
    }
    proof {
        assert(s@.subrange(at as int, at + needle@.len()) =~= needle@);
    }
    true
}

/// Substring search: `true` exactly when `needle` occurs in `s`.
pub fn contains_bytes(s: &[u8], needle: &[u8]) -> (b: bool)
    ensures
        b == contains_sub(s@, needle@),
{
    if needle.len() > s.len() {
        assert(forall|i: int| !matches_at(s@, needle@, i));
        return false;
    }
    if needle.len() == 0 {
        assert(s@.subrange(0, 0) =~= needle@);
        assert(matches_at(s@, needle@, 0));
        return true;
    }
    let sn = s.len();
    let top = s.len() - needle.len();
    let mut i: usize = 0;
    while i <= top
        invariant
            1 <= needle@.len() <= s@.len(),
            sn == s@.len(),
            top == s@.len() - needle@.len(),
            i <= top + 1,
            forall|j: int| 0 <= j < i ==> !matches_at(s@, needle@, j),
        decreases top + 1 - i,
    {
        if match_at(s, needle, i) {
            return true;
        }
        i = i + 1;
    }
    assert(forall|j: int| j > top ==> !matches_at(s@, needle@, j));
    false
}

/// The sequence of the seven bytes of the keyword `elapsed`.
pub open spec fn elapsed_keyword() -> Seq<u8> {
    seq![101u8, 108u8, 97u8, 112u8, 115u8, 101u8, 100u8]
}

fn elapsed_keyword_x() -> (v: Vec<u8>)
    ensures
        v@ == elapsed_keyword(),
{
    let mut v: Vec<u8> = Vec::new();
    v.push(101);
    v.push(108);
    v.push(97);
    v.push(112);
    v.push(115);
    v.push(101);
    v.push(100);
    proof {
        assert(v@ =~= elapsed_keyword());
    }
    v
}

/// An elapsed-event line: it contains both the phase marker and the
/// keyword `elapsed`. All other lines are ignored by elapsed-duration
/// extraction.
pub open spec fn elapsed_line_matches(s: Seq<u8>, marker: Seq<u8>) -> bool {
    contains_sub(s, marker) && contains_sub(s, elapsed_keyword())
}

/// Runtime check of `elapsed_line_matches`.
pub fn elapsed_line_filter(line: &[u8], marker: &[u8]) -> (b: bool)
    ensures
        b == elapsed_line_matches(line@, marker@),
{
    let kw = elapsed_keyword_x();
    contains_bytes(line, marker) && contains_bytes(line, kw.as_slice())
}

/// Index of the last occurrence of `c` at or before `i`; -1 if none.
pub open spec fn rfind_from(s: Seq<u8>, c: u8, i: int) -> int
    decreases i + 1,
{
    if i < 0 || i >= s.len() {
        -1
    } else if s[i] == c {
        i
    } else {
        rfind_from(s, c, i - 1)
    }
}

proof fn lemma_rfind_bounds(s: Seq<u8>, c: u8, i: int)
    requires
        -1 <= i < s.len(),
    ensures
        -1 <= rfind_from(s, c, i) <= i,
    decreases i + 1,
{
    if 0 <= i && s[i] != c {
        lemma_rfind_bounds(s, c, i - 1);
    }
}

fn rfind_byte(s: &[u8], c: u8) -> (r: Option<usize>)
    ensures
        match r {
            Some(j) => j as int == rfind_from(s@, c, s@.len() - 1) && j < s@.len(),
            None => rfind_from(s@, c, s@.len() - 1) == -1,
        },
{
    let mut j = s.len();
    while j > 0
        invariant
            j <= s@.len(),
            rfind_from(s@, c, s@.len() - 1) == rfind_from(s@, c, j - 1),
        decreases j,
    {
        if s[j - 1] == c {
            return Some(j - 1);
        }
        j = j - 1;
    }
    None
}

/// `t` with one trailing closing brace removed, if present.
pub open spec fn strip_brace(t: Seq<u8>) -> Seq<u8> {
    if t.len() > 0 && t[t.len() - 1] == 125 {
        t.drop_last()
    } else {
        t
    }
}

/// The raw elapsed field of a line: the segment after the last colon (the
/// whole line when it has no colon), trimmed, with one trailing closing
/// brace removed, trimmed again.
pub open spec fn elapsed_raw(s: Seq<u8>) -> Seq<u8> {
    trim(strip_brace(trim(s.subrange(rfind_from(s, 58, s.len() - 1) + 1, s.len() as int))))
}

/// A decimal numeral `\d+` or `\d+.\d*`.
pub open spec fn is_decimal(t: Seq<u8>) -> bool {
    let dr = digit_run_end(t, 0);
    &&& dr > 0
    &&& (dr == t.len() || (t[dr] == 46 && digit_run_end(t, dr + 1) == t.len()))
}

/// The digits before the decimal point.
pub open spec fn decimal_int_part(t: Seq<u8>) -> Seq<u8> {
    t.subrange(0, digit_run_end(t, 0))
}

/// The elapsed value of a line, truncated to whole seconds: the integer
/// part of its raw elapsed field when that field is a decimal numeral.
pub open spec fn elapsed_value(s: Seq<u8>) -> Option<int> {
    if is_decimal(elapsed_raw(s)) {
        Some(digits_val(decimal_int_part(elapsed_raw(s))))
    } else {
        None
    }
}

/// Extract the truncated elapsed seconds of a line: `Some` exactly when
/// the line's raw elapsed field is a decimal numeral whose integer part
/// fits in u64.
pub fn extract_elapsed(line: &[u8]) -> (r: Option<u64>)
    ensures
        (r is Some) == match elapsed_value(line@) {
            Some(v) => 0 <= v <= u64::MAX,
            None => false,
        },
        r matches Some(v) ==> elapsed_value(line@) == Some(v as int),
{
    let n = line.len();
    let seg_start = match rfind_byte(line, 58) {
        Some(j) => j + 1,
        None => 0,
    };
    proof {
        lemma_rfind_bounds(line@, 58, line@.len() - 1);
    }
    let seg = copy_range(line, seg_start, n);
    let t1 = trim_copy(&seg);
    let t2_end = if t1.len() > 0 && t1[t1.len() - 1] == 125 {
        t1.len() - 1
    } else {
        t1.len()
    };
    let t2 = copy_range(&t1, 0, t2_end);
    proof {
        assert(t2@ =~= strip_brace(t1@));
    }
    let t3 = trim_copy(&t2);
    let dr = scan_digits(&t3, 0);
    if dr == 0 {
        return None;
    }
    if dr < t3.len() {
        if t3[dr] != 46 {
            return None;
        }
        let g = scan_digits(&t3, dr + 1);
        if g != t3.len() {
            return None;
        }
    }
    let int_part = copy_range(&t3, 0, dr);
    proof {
        lemma_digit_run_full(t3@, 0);
        lemma_digits_val_nonneg(int_part@);
    }
    parse_digits_u64(&int_part)
}

} // verus!

//! Series extraction: drive the tokenizers and the timestamp normalizer
//! over a whole file (a sequence of lines) and produce ordered sample
//! sequences. Extraction is strict: the first line that fails to tokenize
//! or normalize aborts the extraction of that file.

use vstd::prelude::*;

use crate::calendar::CivilTime;
use crate::timestamp::TsFormat;
use crate::timestamp::civil_of_date_time;
use crate::timestamp::date_fixed_matches;
use crate::timestamp::iso_ts_epoch;
use crate::timestamp::normalize_timestamp;
use crate::timestamp::parse_date_time;
use crate::timestamp::time_fixed_matches;
use crate::tokenize::bench_dt;
use crate::tokenize::bench_line_matches;
use crate::tokenize::bench_stage;
use crate::tokenize::bench_th_tok;
use crate::tokenize::digits_val;
use crate::tokenize::elapsed_line_filter;
use crate::tokenize::elapsed_line_matches;
use crate::tokenize::elapsed_value;
use crate::tokenize::extract_elapsed;
use crate::tokenize::mem_line_matches;
use crate::tokenize::mem_used_tok;
use crate::tokenize::parse_digits_u32;
use crate::tokenize::parse_digits_u64;
use crate::tokenize::tokenize_bench_line;
use crate::tokenize::tokenize_mem_line;
use crate::tokenize::tokens_of;

verus! {

/// Why an extraction aborted, with the zero-based index of the line at
/// fault.
#[derive(Clone, Copy, Debug, PartialEq, Eq, Structural)]
pub enum LogError {
    /// The line does not conform to the expected tokenization pattern.
    PatternMismatch { line: usize },
    /// A captured field failed to convert to its target type: a numeric
    /// field too large, or a timestamp that spells no valid civil time.
    ValueParse { line: usize },
}

impl LogError {
    /// The index of the line at fault.
    pub open spec fn line_no(self) -> int {
        match self {
            LogError::PatternMismatch { line } => line as int,
            LogError::ValueParse { line } => line as int,
        }
    }
}

/// The views of a sequence of owned lines.
pub open spec fn line_views(lines: Seq<Vec<u8>>) -> Seq<Seq<u8>> {
    Seq::new(lines.len(), |i: int| lines[i]@)
}

/// The numeric value of the "used" field of a resource-log line.
pub open spec fn mem_used_val(s: Seq<u8>) -> int {
    digits_val(mem_used_tok(s))
}

/// A resource-log line that tokenizes and whose "used" value fits in u32.
pub open spec fn mem_line_ok(s: Seq<u8>) -> bool {
    mem_line_matches(s) && mem_used_val(s) <= u32::MAX
}

/// The error a failing line yields, at line index `i`.
pub open spec fn mem_line_err(s: Seq<u8>, i: int) -> LogError {
    if mem_line_matches(s) {
        LogError::ValueParse { line: i as usize }
    } else {
        LogError::PatternMismatch { line: i as usize }
    }
}

/// Full-series extraction over a resource-log file: skip the header line,
/// then one u32 sample per data line, in file order; the sample's index in
/// the result is its zero-based data-line position.
///
/// A file of `n` lines (one header, `n - 1` data lines) yields exactly
/// `n - 1` samples. The first line that fails aborts the extraction:
/// `PatternMismatch` when it does not tokenize, `ValueParse` when its
/// "used" field does not fit.
pub fn parse_mem_log(lines: &Vec<Vec<u8>>) -> (r: Result<Vec<u32>, LogError>)
    ensures
        match r {
            Ok(v) => {
                &&& forall|j: int| 1 <= j < lines@.len() ==> mem_line_ok((#[trigger] lines@[j])@)
                &&& v@.len() == if lines@.len() == 0 {
                    0int
                } else {
                    lines@.len() - 1
                }
                &&& forall|j: int|
                    0 <= j < v@.len() ==> (#[trigger] v@[j]) as int == mem_used_val(
                        lines@[j + 1]@,
                    )
            },
            Err(e) => {
                let i = e.line_no();
                &&& 1 <= i < lines@.len()
                &&& forall|j: int| 1 <= j < i ==> mem_line_ok((#[trigger] lines@[j])@)
                &&& !mem_line_ok(lines@[i]@)
                &&& e == mem_line_err(lines@[i]@, i)
            },
        },
{
    let mut data: Vec<u32> = Vec::new();
    if lines.len() == 0 {
        return Ok(data);
    }
    let mut i: usize = 1;
    while i < lines.len()
        invariant
            1 <= i <= lines@.len(),
            data@.len() == i - 1,
            forall|j: int| 1 <= j < i ==> mem_line_ok((#[trigger] lines@[j])@),
            forall|j: int|
                0 <= j < data@.len() ==> (#[trigger] data@[j]) as int == mem_used_val(
                    lines@[j + 1]@,
                ),
        decreases lines@.len() - i,
    {
        let f = match tokenize_mem_line(lines[i].as_slice()) {
            Some(f) => f,
            None => {
                return Err(LogError::PatternMismatch { line: i });
            },
        };
        let used = match parse_digits_u32(f.used.as_slice()) {
            Some(u) => u,
            None => {
                return Err(LogError::ValueParse { line: i });
            },
        };
        data.push(used);
        i = i + 1;
    }
    Ok(data)
}

/// The civil time spelled by the date and time tokens of a resource-log
/// line.
pub open spec fn mem_start_civil(s: Seq<u8>) -> CivilTime {
    civil_of_date_time(tokens_of(s)[0], tokens_of(s)[1])
}

/// The second line of a resource-log file yields a start timestamp: it
/// tokenizes, its date and time tokens have the fixed widths, and they
/// spell a valid civil time.
pub open spec fn mem_start_ok(s: Seq<u8>) -> bool {
    &&& mem_line_matches(s)
    &&& date_fixed_matches(tokens_of(s)[0])
    &&& time_fixed_matches(tokens_of(s)[1])
    &&& mem_start_civil(s).valid()
}

/// Start-timestamp extraction: normalize the timestamp of the second line
/// of a resource-log file (the first line is the header) to epoch seconds.
///
/// `PatternMismatch` at line 1 when the file has no second line or it does
/// not tokenize; `ValueParse` at line 1 when its timestamp is rejected.
pub fn get_start_time_stamp(lines: &Vec<Vec<u8>>) -> (r: Result<u64, LogError>)
    ensures
        match r {
            Ok(e) => {
                &&& lines@.len() >= 2
                &&& mem_start_ok(lines@[1]@)
                &&& e as int == mem_start_civil(lines@[1]@).epoch()
            },
            Err(err) => {
                &&& !(lines@.len() >= 2 && mem_start_ok(lines@[1]@))
                &&& err == (if lines@.len() >= 2 && mem_line_matches(lines@[1]@) {
                    LogError::ValueParse { line: 1 }
                } else {
                    LogError::PatternMismatch { line: 1 }
                })
            },
        },
{
    if lines.len() < 2 {
        return Err(LogError::PatternMismatch { line: 1 });
    }
    let f = match tokenize_mem_line(lines[1].as_slice()) {
        Some(f) => f,
        None => {
            return Err(LogError::PatternMismatch { line: 1 });
        },
    };
    match parse_date_time(f.date.as_slice(), f.time.as_slice()) {
        Some(e) => {
            proof {
                crate::calendar::lemma_epoch_of_bounds(mem_start_civil(lines@[1]@));
            }
            Ok(e)
        },
        None => Err(LogError::ValueParse { line: 1 }),
    }
}

/// A benchmark-log line that tokenizes, whose datetime normalizes, and
/// whose thread identifier fits in u64.
pub open spec fn bench_line_ok(s: Seq<u8>) -> bool {
    &&& bench_line_matches(s)
    &&& iso_ts_epoch(bench_dt(s)) is Some
    &&& digits_val(bench_th_tok(s)) <= u64::MAX
}

/// The epoch seconds of a benchmark-log line whose datetime normalizes.
pub open spec fn bench_ts_val(s: Seq<u8>) -> int {
    match iso_ts_epoch(bench_dt(s)) {
        Some(e) => e,
        None => 0,
    }
}

/// The error a failing benchmark-log line yields, at line index `i`.
pub open spec fn bench_line_err(s: Seq<u8>, i: int) -> LogError {
    if bench_line_matches(s) {
        LogError::ValueParse { line: i as usize }
    } else {
        LogError::PatternMismatch { line: i as usize }
    }
}

/// Event-series extraction over a benchmark-log file: every line yields an
/// epoch-seconds timestamp and a `(thread, stage)` event, index-aligned.
///
/// The first line that fails aborts the extraction: `PatternMismatch` when
/// it does not tokenize, `ValueParse` when its datetime is rejected or its
/// thread identifier does not fit.
pub fn parse_bench_log(lines: &Vec<Vec<u8>>) -> (r: Result<
    (Vec<u64>, Vec<(u64, Vec<u8>)>),
    LogError,
>)
    ensures
        match r {
            Ok(p) => {
                &&& forall|j: int| 0 <= j < lines@.len() ==> bench_line_ok((#[trigger] lines@[j])@)
                &&& p.0@.len() == lines@.len()
                &&& p.1@.len() == lines@.len()
                &&& forall|j: int|
                    0 <= j < lines@.len() ==> (#[trigger] p.0@[j]) as int == bench_ts_val(
                        lines@[j]@,
                    )
                &&& forall|j: int|
                    0 <= j < lines@.len() ==> (#[trigger] p.1@[j]).0 as int == digits_val(
                        bench_th_tok(lines@[j]@),
                    ) && p.1@[j].1@ == bench_stage(lines@[j]@)
            },
            Err(e) => {
                let i = e.line_no();
                &&& 0 <= i < lines@.len()
                &&& forall|j: int| 0 <= j < i ==> bench_line_ok((#[trigger] lines@[j])@)
                &&& !bench_line_ok(lines@[i]@)
                &&& e == bench_line_err(lines@[i]@, i)
            },
        },
{
    let mut stamps: Vec<u64> = Vec::new();
    let mut events: Vec<(u64, Vec<u8>)> = Vec::new();
    let mut i: usize = 0;
    while i < lines.len()
        invariant
            i <= lines@.len(),
            stamps@.len() == i,
            events@.len() == i,
            forall|j: int| 0 <= j < i ==> bench_line_ok((#[trigger] lines@[j])@),
            forall|j: int|
                0 <= j < i ==> (#[trigger] stamps@[j]) as int == bench_ts_val(lines@[j]@),
            forall|j: int|
                0 <= j < i ==> (#[trigger] events@[j]).0 as int == digits_val(
                    bench_th_tok(lines@[j]@),
                ) && events@[j].1@ == bench_stage(lines@[j]@),
        decreases lines@.len() - i,
    {
        let f = match tokenize_bench_line(lines[i].as_slice()) {
            Some(f) => f,
            None => {
                return Err(LogError::PatternMismatch { line: i });
            },
        };
        let ts = match normalize_timestamp(TsFormat::IsoMillis, f.datetime.as_slice()) {
            Some(ts) => {
                proof {
                    crate::calendar::lemma_epoch_of_bounds(
                        crate::timestamp::iso_ts_civil(bench_dt(lines@[i as int]@)),
                    );
                }
                ts
            },
            None => {
                return Err(LogError::ValueParse { line: i });
            },
        };
        let th = match parse_digits_u64(f.th.as_slice()) {
            Some(th) => th,
            None => {
                return Err(LogError::ValueParse { line: i });
            },
        };
        stamps.push(ts);
        events.push((th, f.stage));
        i = i + 1;
    }
    Ok((stamps, events))
}

/// A line either stays outside the elapsed filter or carries an elapsed
/// value that fits in u64.
pub open spec fn elapsed_line_ok(s: Seq<u8>, marker: Seq<u8>) -> bool {
    elapsed_line_matches(s, marker) ==> match elapsed_value(s) {
        Some(v) => 0 <= v <= u64::MAX,
        None => false,
    }
}

/// The elapsed value of a line, for lines whose value exists.
pub open spec fn elapsed_value_int(s: Seq<u8>) -> int {
    match elapsed_value(s) {
        Some(v) => v,
        None => 0,
    }
}

/// The elapsed-duration series of a file: the truncated elapsed value of
/// each line that passes the dual-substring filter, in file order. Lines
/// outside the filter are ignored.
pub open spec fn elapsed_series(lines: Seq<Seq<u8>>, marker: Seq<u8>) -> Seq<int>
    decreases lines.len(),
{
    if lines.len() == 0 {
        Seq::empty()
    } else {
        let rest = elapsed_series(lines.drop_last(), marker);
        if elapsed_line_matches(lines.last(), marker) {
            rest.push(elapsed_value_int(lines.last()))
        } else {
            rest
        }
    }
}

/// Elapsed-duration extraction: scan every line, keep those containing
/// both the phase marker and the keyword `elapsed`, and collect their
/// truncated elapsed seconds, in file order.
///
/// A filtered line without a readable value aborts with `ValueParse` at
/// that line; all other lines are ignored.
pub fn parse_elapsed_log(lines: &Vec<Vec<u8>>, marker: &[u8]) -> (r: Result<Vec<u64>, LogError>)
    ensures
        match r {
            Ok(v) => {
                &&& forall|j: int|
                    0 <= j < lines@.len() ==> elapsed_line_ok((#[trigger] lines@[j])@, marker@)
                &&& v@.len() == elapsed_series(line_views(lines@), marker@).len()
                &&& forall|k: int|
                    0 <= k < v@.len() ==> (#[trigger] v@[k]) as int == elapsed_series(
                        line_views(lines@),
                        marker@,
                    )[k]
            },
            Err(e) => {
                let i = e.line_no();
                &&& 0 <= i < lines@.len()
                &&& forall|j: int| 0 <= j < i ==> elapsed_line_ok((#[trigger] lines@[j])@, marker@)
                &&& !elapsed_line_ok(lines@[i]@, marker@)
                &&& e == LogError::ValueParse { line: i as usize }
            },
        },
{
    let mut out: Vec<u64> = Vec::new();
    let mut i: usize = 0;
    while i < lines.len()
        invariant
            i <= lines@.len(),
            forall|j: int| 0 <= j < i ==> elapsed_line_ok((#[trigger] lines@[j])@, marker@),
            out@.len() == elapsed_series(line_views(lines@).take(i as int), marker@).len(),
            forall|k: int|
                0 <= k < out@.len() ==> (#[trigger] out@[k]) as int == elapsed_series(
                    line_views(lines@).take(i as int),
                    marker@,
                )[k],
        decreases lines@.len() - i,
    {
        let ghost pre = line_views(lines@).take(i as int);
        let ghost cur = line_views(lines@).take(i + 1);
        proof {
            assert(cur.drop_last() =~= pre);
            assert(cur.last() == lines@[i as int]@);
        }
        if elapsed_line_filter(lines[i].as_slice(), marker) {
            match extract_elapsed(lines[i].as_slice()) {
                Some(v) => {
                    out.push(v);
                },
                None => {
                    return Err(LogError::ValueParse { line: i });
                },
            }
        }
        i = i + 1;
    }
    proof {
        assert(line_views(lines@).take(lines@.len() as int) =~= line_views(lines@));
    }
    Ok(out)
}

} // verus!
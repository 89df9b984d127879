//! Time between consecutive messages: the longest gap and where it is, and
//! the shortest gap.
//!
//! Gaps are measured in nanoseconds, as `chrono` measures the time between
//! two parsed timestamps.
use crate::model::{Message, Thread};
use crate::text::zero_padded;
use chrono::NaiveDateTime;
use hhmmss::Hhmmss;
use vstd::prelude::*;

verus! {

/// The format of message timestamps.
pub open spec fn timestamp_format() -> Seq<char> {
    "%Y-%m-%dT%H:%M:%S%.6f+00:00"@
}

/// The name for what `chrono` gives for the time from `earlier` to `later`,
/// both parsed with `format`: whole seconds and the remaining nanoseconds (of
/// the same sign), or nothing where one of them does not parse.
pub uninterp spec fn timestamp_gap(later: Seq<char>, earlier: Seq<char>, format: Seq<char>) -> Option<
    (i64, i32),
>;

/// Parses both texts with `NaiveDateTime::parse_from_str` and `format`; where
/// both parse, takes `later.signed_duration_since(earlier)` and returns its
/// `num_seconds` and `subsec_nanos`. The result is named `timestamp_gap` of
/// the three texts. As chrono documents, `subsec_nanos() + num_seconds() *
/// 1_000_000_000` is the whole duration in nanoseconds, and a `TimeDelta`
/// lies between `-i64::MAX` and `i64::MAX` milliseconds; that bound is the
/// one more fact claimed here.
#[verifier::external_body]
fn gap_between(later: &str, earlier: &str, format: &str) -> (r: Option<(i64, i32)>)
    ensures
        r == timestamp_gap(later@, earlier@, format@),
        r matches Some(g) ==> least_gap() <= gap_nanos(g) <= greatest_gap(),
{
    match (NaiveDateTime::parse_from_str(later, format), NaiveDateTime::parse_from_str(earlier, format)) {
        (Ok(a), Ok(b)) => {
            let d = a.signed_duration_since(b);
            Some((d.num_seconds(), d.subsec_nanos()))
        },
        _ => None,
    }
}

/// A gap in nanoseconds.
pub open spec fn gap_nanos(g: (i64, i32)) -> int {
    g.0 * 1_000_000_000 + g.1
}

/// The gap before the chronologically `k`-th message (from 0), that is the
/// time from `conv[len - 1 - k]` to `conv[len - 2 - k]`.
pub open spec fn nth_gap(conv: Seq<Message>, k: int) -> Option<(i64, i32)> {
    timestamp_gap(
        conv[conv.len() - 2 - k].created_at@,
        conv[conv.len() - 1 - k].created_at@,
        timestamp_format(),
    )
}

/// The gaps between consecutive messages of thread `t`, oldest first; none
/// where a timestamp does not parse.
pub fn thread_gaps(t: &Thread) -> (r: Option<Vec<i128>>)
    requires
        t.conversation@.len() >= 1,
    ensures
        r is None <==> exists|k: int|
            0 <= k < t.conversation@.len() - 1 && #[trigger] nth_gap(t.conversation@, k) is None,
        r matches Some(g) ==> g@.len() == t.conversation@.len() - 1 && forall|k: int|
            0 <= k < g@.len() ==> g@[k] == gap_nanos(#[trigger] nth_gap(t.conversation@, k)->0),
        r matches Some(g) ==> forall|k: int|
            0 <= k < g@.len() ==> least_gap() <= #[trigger] g@[k] <= greatest_gap(),
{
    let conv = &t.conversation;
    let n = conv.len() - 1;
    let format = "%Y-%m-%dT%H:%M:%S%.6f+00:00";
    let mut gaps: Vec<i128> = Vec::new();
    let mut k: usize = 0;
    while k < n
        invariant
            n == conv@.len() - 1,
            conv == &t.conversation,
            format@ == timestamp_format(),
            k <= n,
            gaps@.len() == k,
            forall|j: int| 0 <= j < k ==> #[trigger] nth_gap(conv@, j) is Some,
            forall|j: int| 0 <= j < k ==> gaps@[j] == gap_nanos(#[trigger] nth_gap(conv@, j)->0),
            forall|j: int| 0 <= j < k ==> least_gap() <= #[trigger] gaps@[j] <= greatest_gap(),
        decreases n - k,
    {
        let later = conv[n - 1 - k].created_at.as_str();
        let earlier = conv[n - k].created_at.as_str();
        match gap_between(later, earlier, format) {
            Some((s, ns)) => {
                assert(nth_gap(conv@, k as int) == Some((s, ns)));
                gaps.push((s as i128) * 1_000_000_000 + (ns as i128));
            },
            None => {
                assert(nth_gap(conv@, k as int) is None);
                return None;
            },
        }
        k = k + 1;
    }
    Some(gaps)
}

/// `TimeDelta::MIN` in nanoseconds: where the longest gap starts.
pub open spec fn least_gap() -> int {
    -9223372036854775807000000
}

/// `TimeDelta::MAX` in nanoseconds: where the shortest gap starts.
pub open spec fn greatest_gap() -> int {
    9223372036854775807000000
}

/// The longest gap with its position, and the shortest gap.
#[derive(Clone, Copy, Debug)]
pub struct GapStats {
    pub longest: i128,
    pub longest_pos: usize,
    pub shortest: i128,
}

/// What `gap_stats` says of gaps `g`: the longest is the greatest gap (at
/// least `least_gap`) and its position the first one that has it; the
/// shortest is the least gap (at most `greatest_gap`).
pub open spec fn describes_gaps(s: GapStats, g: Seq<i128>) -> bool {
    &&& s.longest >= least_gap()
    &&& s.longest == least_gap() ==> s.longest_pos == 0 && forall|k: int|
        0 <= k < g.len() ==> #[trigger] g[k] <= least_gap()
    &&& s.longest > least_gap() ==> {
        &&& 0 <= s.longest_pos < g.len()
        &&& s.longest == g[s.longest_pos as int]
        &&& forall|k: int| 0 <= k < g.len() ==> #[trigger] g[k] <= s.longest
        &&& forall|k: int| 0 <= k < s.longest_pos ==> #[trigger] g[k] < s.longest
    }
    &&& s.shortest <= greatest_gap()
    &&& forall|k: int| 0 <= k < g.len() ==> s.shortest <= #[trigger] g[k]
    &&& s.shortest == greatest_gap() || exists|k: int|
        0 <= k < g.len() && #[trigger] g[k] == s.shortest
}

/// The statistics of the gaps `g`, taken in order: a gap longer than the
/// longest so far becomes the longest, and a gap shorter than the shortest so
/// far becomes the shortest.
pub fn gap_stats(g: &Vec<i128>) -> (s: GapStats)
    ensures
        describes_gaps(s, g@),
        (forall|k: int| 0 <= k < g@.len() ==> #[trigger] g@[k] <= greatest_gap()) ==> s.longest
            <= greatest_gap(),
{
    let mut longest: i128 = -9223372036854775807000000;
    let mut pos: usize = 0;
    let mut shortest: i128 = 9223372036854775807000000;
    let mut k: usize = 0;
    while k < g.len()
        invariant
            k <= g@.len(),
            longest >= least_gap(),
            longest == least_gap() ==> pos == 0 && forall|j: int|
                0 <= j < k ==> #[trigger] g@[j] <= least_gap(),
            longest > least_gap() ==> {
                &&& 0 <= pos < k
                &&& longest == g@[pos as int]
                &&& forall|j: int| 0 <= j < k ==> #[trigger] g@[j] <= longest
                &&& forall|j: int| 0 <= j < pos ==> #[trigger] g@[j] < longest
            },
            shortest <= greatest_gap(),
            forall|j: int| 0 <= j < k ==> shortest <= #[trigger] g@[j],
            shortest == greatest_gap() || exists|j: int|
                0 <= j < k && #[trigger] g@[j] == shortest,
        decreases g@.len() - k,
    {
        let x = g[k];
        if x > longest {
            longest = x;
            pos = k;
        }
        if x < shortest {
            shortest = x;
        }
        k = k + 1;
    }
    GapStats { longest, longest_pos: pos, shortest }
}

/// The clock text `hhmmss` writes for a duration of `secs` seconds and
/// `millis` milliseconds: hours, minutes and seconds with at least two digits
/// each, then the milliseconds with three, as in `01:01:01.534`.
pub open spec fn clock_text(secs: nat, millis: nat) -> Seq<char> {
    zero_padded(secs / 3600, 2) + ":"@ + zero_padded((secs % 3600) / 60, 2) + ":"@
        + zero_padded(secs % 60, 2) + "."@ + zero_padded(millis, 3)
}

/// Calls `Hhmmss::hhmmssxxx` on `std::time::Duration::new(secs, nanos)`.
/// As its source shows, the text is the seconds split into hours, minutes and
/// seconds, each written with at least two digits, then the whole
/// milliseconds of `nanos` with three.
#[verifier::external_body]
fn duration_clock(secs: u64, nanos: u32) -> (r: String)
    requires
        secs <= i64::MAX,
        nanos < 1_000_000_000,
    ensures
        r@ == clock_text(secs as nat, (nanos / 1_000_000) as nat),
{
    std::time::Duration::new(secs, nanos).hhmmssxxx()
}

/// The text a gap of `nanos` nanoseconds is shown as, once turned into a
/// `std::time::Duration`; none for a negative gap, which has no such
/// duration.
pub open spec fn gap_text(nanos: int) -> Option<Seq<char>> {
    if nanos < 0 {
        None
    } else {
        Some(clock_text((nanos / 1_000_000_000) as nat, ((nanos % 1_000_000_000) / 1_000_000) as nat))
    }
}

/// The text a gap of `nanos` nanoseconds is shown as.
pub fn gap_clock_text(nanos: i128) -> (r: Option<String>)
    requires
        nanos <= greatest_gap(),
    ensures
        r matches Some(t) ==> gap_text(nanos as int) == Some(t@),
        r is None ==> gap_text(nanos as int) is None,
{
    if nanos < 0 {
        return None;
    }
    let secs = (nanos / 1_000_000_000) as u64;
    let sub = (nanos % 1_000_000_000) as u32;
    Some(duration_clock(secs, sub))
}

} // verus!

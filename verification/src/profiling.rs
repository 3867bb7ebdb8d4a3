//! A simple performance profiler — named checkpoints against a monotonic
//! clock — and a basic memory-usage tracker.

use vstd::prelude::*;
use crate::text::{dec_str, u64_to_string};

verus! {

#[verifier::external_type_specification]
#[verifier::external_body]
pub struct ExInstant(std::time::Instant);

/// Relies on std::time::Instant::now: an opaque reading of the monotonic
/// clock; nothing is promised of its value.
pub assume_specification[ std::time::Instant::now ]() -> std::time::Instant;

/// Relies on std::time::Instant::elapsed: the time since the instant, as an
/// opaque duration; nothing is promised of its value.
pub assume_specification[ std::time::Instant::elapsed ](
    this: &std::time::Instant,
) -> core::time::Duration;

/// Relies on core::time::Duration::as_nanos: the duration as a number of
/// nanoseconds; nothing is promised of its value.
pub assume_specification[ core::time::Duration::as_nanos ](
    this: &core::time::Duration,
) -> u128;

/// Read the clock as nanoseconds since the given instant, saturated to 64
/// bits. The value depends on the clock; nothing is promised of it.
fn elapsed_nanos(start: &std::time::Instant) -> (r: u64) {
    let d = start.elapsed();
    let n = d.as_nanos();
    if n > u64::MAX as u128 {
        u64::MAX
    } else {
        n as u64
    }
}

/// Milliseconds with two decimal places (truncated), from nanoseconds.
pub open spec fn spec_fmt_ms(nanos: u64) -> Seq<char> {
    let h = nanos / 10000;
    dec_str((h / 100) as nat) + "."@ + (if h % 100 < 10 {
        seq!['0']
    } else {
        Seq::empty()
    }) + dec_str((h % 100) as nat)
}

/// Render nanoseconds as milliseconds with two decimal places (truncated).
pub fn fmt_ms(nanos: u64) -> (r: String)
    ensures
        r@ == spec_fmt_ms(nanos),
{
    let h = nanos / 10000;
    let mut s = u64_to_string(h / 100);
    s.append(".");
    if h % 100 < 10 {
        s.append("0");
        proof {
            reveal_strlit("0");
        }
    }
    let frac = u64_to_string(h % 100);
    s.append(frac.as_str());
    proof {
        assert(s@ =~= spec_fmt_ms(nanos));
    }
    s
}

/// One line of the report for each checkpoint: its name, its elapsed time,
/// and the difference to the checkpoint before it.
pub open spec fn spec_report_lines(cps: Seq<(String, u64)>, prev: u64) -> Seq<char>
    decreases cps.len(),
{
    if cps.len() == 0 {
        Seq::empty()
    } else {
        let e = cps[0].1;
        let d = if e >= prev {
            (e - prev) as u64
        } else {
            0u64
        };
        "  "@ + cps[0].0@ + ": "@ + spec_fmt_ms(e) + "ms (diff: "@ + spec_fmt_ms(d)
            + "ms)\n"@ + spec_report_lines(cps.skip(1), e)
    }
}

/// The whole report: the header, the checkpoint lines, and a total line.
pub open spec fn spec_report(cps: Seq<(String, u64)>, total: u64) -> Seq<char> {
    "Profiling Results:\n"@ + spec_report_lines(cps, 0) + "  Total: "@ + spec_fmt_ms(total)
        + "ms\n"@
}

/// A simple profiler: named checkpoints, each carrying the nanoseconds
/// elapsed since the profiler was started.
pub struct Profiler {
    /// When the profiler was started.
    pub start: std::time::Instant,
    /// The checkpoints: each name with its elapsed nanoseconds.
    pub checkpoints: Vec<(String, u64)>,
}

impl Profiler {
    /// Start a profiler with no checkpoints.
    pub fn new() -> (r: Profiler)
        ensures
            r.checkpoints@.len() == 0,
    {
        Profiler { start: std::time::Instant::now(), checkpoints: Vec::new() }
    }

    /// Record a checkpoint under the given name. The recorded time comes
    /// from the clock; nothing is promised of its value.
    pub fn checkpoint(&mut self, name: &str)
        ensures
            final(self).checkpoints@.len() == old(self).checkpoints@.len() + 1,
            final(self).checkpoints@.drop_last() == old(self).checkpoints@,
            (final(self).checkpoints@.last().0)@ == name@,
            final(self).start == old(self).start,
    {
        let e = elapsed_nanos(&self.start);
        self.checkpoints.push((String::from_str(name), e));
        proof {
            assert(self.checkpoints@.drop_last() =~= old(self).checkpoints@);
        }
    }

    /// The checkpoints recorded so far.
    pub fn get_checkpoints(&self) -> (r: &Vec<(String, u64)>)
        ensures
            r == &self.checkpoints,
    {
        &self.checkpoints
    }

    /// Nanoseconds since the profiler was started. The value comes from the
    /// clock; nothing is promised of it.
    pub fn total_elapsed(&self) -> u64 {
        elapsed_nanos(&self.start)
    }

    /// Render the recorded checkpoints: one line per checkpoint with its
    /// time and the difference to the one before, then a total read from
    /// the clock.
    pub fn to_string(&self) -> (r: String)
        ensures
            exists|total: u64| r@ == spec_report(self.checkpoints@, total),
    {
        let mut s = String::from_str("Profiling Results:\n");
        let lines = self.report_lines_from(0, 0);
        s.append(lines.as_str());
        s.append("  Total: ");
        let total = self.total_elapsed();
        let t = fmt_ms(total);
        s.append(t.as_str());
        s.append("ms\n");
        proof {
            assert(self.checkpoints@.skip(0) =~= self.checkpoints@);
            assert(s@ =~= spec_report(self.checkpoints@, total));
        }
        s
    }

    /// Render the checkpoint lines from index `i` on.
    fn report_lines_from(&self, i: usize, prev: u64) -> (r: String)
        requires
            i <= self.checkpoints@.len(),
        ensures
            r@ == spec_report_lines(self.checkpoints@.skip(i as int), prev),
        decreases self.checkpoints@.len() - i,
    {
        let ghost tail = self.checkpoints@.skip(i as int);
        if i >= self.checkpoints.len() {
            proof {
                assert(tail =~= Seq::<(String, u64)>::empty());
            }
            String::new()
        } else {
            let e = self.checkpoints[i].1;
            let d: u64 = if e >= prev {
                e - prev
            } else {
                0
            };
            let mut s = String::from_str("  ");
            s.append(self.checkpoints[i].0.as_str());
            s.append(": ");
            let ef = fmt_ms(e);
            s.append(ef.as_str());
            s.append("ms (diff: ");
            let df = fmt_ms(d);
            s.append(df.as_str());
            s.append("ms)\n");
            let rest = self.report_lines_from(i + 1, e);
            s.append(rest.as_str());
            proof {
                assert(tail[0] == self.checkpoints@[i as int]);
                assert(tail.skip(1) =~= self.checkpoints@.skip(i + 1));
                assert(s@ =~= spec_report_lines(tail, prev));
            }
            s
        }
    }
}

impl Default for Profiler {
    /// A fresh profiler.
    fn default() -> (r: Profiler)
        ensures
            r.checkpoints@.len() == 0,
    {
        Profiler::new()
    }
}

/// A basic memory-usage tracker. Reading real usage needs platform
/// interfaces this library does not touch; the tracker records a snapshot
/// marker and hands it back.
pub struct MemoryTracker {
    /// The recorded marker, if a snapshot was taken.
    pub initial_memory: Option<usize>,
}

impl MemoryTracker {
    /// A tracker with no snapshot taken.
    pub fn new() -> (r: MemoryTracker)
        ensures
            r.initial_memory is None,
    {
        MemoryTracker { initial_memory: None }
    }

    /// Take a snapshot.
    pub fn snapshot(&mut self)
        ensures
            final(self).initial_memory == Some(0usize),
    {
        self.initial_memory = Some(0);
    }

    /// The recorded snapshot marker, if any.
    pub fn get_usage(&self) -> (r: Option<usize>)
        ensures
            r == self.initial_memory,
    {
        self.initial_memory
    }
}

impl Default for MemoryTracker {
    /// A fresh tracker.
    fn default() -> (r: MemoryTracker)
        ensures
            r.initial_memory is None,
    {
        MemoryTracker::new()
    }
}

} // verus!

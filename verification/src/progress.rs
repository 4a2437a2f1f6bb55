//! Progress-stream interpretation.
//!
//! The external tool multiplexes progress onto its standard output as
//! `key=value` lines.  Two keys matter: `frame=` carries the current output
//! frame and `total_frames=` the total frame count.  A [`ProgressTracker`]
//! folds those lines into a monotonically non-decreasing fraction in
//! `[0, 1]`: each `frame=` line yields one value to hand to the caller's
//! sink, clamped so that it never falls below the value delivered before
//! and capped strictly below one.  Only completion reports `1/1`, exactly
//! once, and only when the conversion succeeded.

use vstd::prelude::*;
use crate::frac::Frac;
use crate::text::{
    frame_prefix, frame_prefix_vec, parse_u32, parses_to_u32, slice_starts_with, starts_with,
    total_frames_prefix, total_frames_prefix_vec, trim_range, trimmed,
};

verus! {

/// What one progress line means.
#[derive(Clone, Copy, Debug, PartialEq, Eq, Structural)]
pub enum LineClass {
    /// A `frame=` line with a well-formed counter.
    Frame(u32),
    /// A `total_frames=` line with a well-formed count.
    Total(u32),
    /// Anything else, malformed values included: ignored.
    Other,
}

/// Classifies one line of the progress stream.  The value after the key is
/// read as a decimal integer with surrounding ASCII whitespace trimmed; a
/// value that does not parse (or overflows the counter's range) makes the
/// line `Other`, so it is ignored silently.
pub open spec fn classify_line(line: Seq<u8>) -> LineClass {
    if starts_with(line, frame_prefix()) {
        match parses_to_u32(trimmed(line.subrange(frame_prefix().len() as int, line.len() as int))) {
            Some(n) => LineClass::Frame(n),
            None => LineClass::Other,
        }
    } else if starts_with(line, total_frames_prefix()) {
        match parses_to_u32(
            trimmed(line.subrange(total_frames_prefix().len() as int, line.len() as int)),
        ) {
            Some(n) => LineClass::Total(n),
            None => LineClass::Other,
        }
    } else {
        LineClass::Other
    }
}

/// Decides [`classify_line`] on one line.
pub fn classify(line: &[u8]) -> (r: LineClass)
    ensures
        r == classify_line(line@),
{
    let fp = frame_prefix_vec();
    if slice_starts_with(line, &fp) {
        let (a, b) = trim_range(line, fp.len(), line.len());
        match parse_u32(line, a, b) {
            Some(n) => LineClass::Frame(n),
            None => LineClass::Other,
        }
    } else {
        let tp = total_frames_prefix_vec();
        if slice_starts_with(line, &tp) {
            let (a, b) = trim_range(line, tp.len(), line.len());
            match parse_u32(line, a, b) {
                Some(n) => LineClass::Total(n),
                None => LineClass::Other,
            }
        } else {
            LineClass::Other
        }
    }
}

/// The fraction `frame / total`, capped strictly below one: a counter at
/// or past the estimate reads as the estimate's last frame, since only a
/// successful completion may report one.  A zero total stands for an
/// unusable estimate and yields zero, which the monotonic clamp then
/// lifts back to the last delivered value.
pub open spec fn spec_fraction_of(frame: u32, total: u32) -> Frac {
    if total == 0 {
        Frac { num: 0, den: 1 }
    } else if frame >= total {
        Frac { num: (total - 1) as u64, den: total as u64 }
    } else {
        Frac { num: frame as u64, den: total as u64 }
    }
}

/// The larger rational value of the two (the second where equal).
pub open spec fn frac_max(a: Frac, b: Frac) -> Frac {
    if a.spec_le(b) {
        b
    } else {
        a
    }
}

/// Folds the progress stream of one conversion into sink deliveries.
pub struct ProgressTracker {
    /// The latest total-frames estimate; the conservative default before a
    /// `total_frames=` line arrives.
    pub total: u32,
    /// The last fraction delivered, `0/1` before any delivery.
    pub last: Frac,
    /// Whether any fraction has been delivered yet.
    pub delivered: bool,
}

/// The total-frames estimate a tracker starts from, before the stream
/// supplies one.
pub open spec fn spec_default_total() -> u32 {
    1000
}

/// The tracker state after reading one line.
pub open spec fn step_state(t: ProgressTracker, line: Seq<u8>) -> ProgressTracker {
    match classify_line(line) {
        LineClass::Frame(f) => ProgressTracker {
            last: frac_max(t.last, spec_fraction_of(f, t.total)),
            delivered: true,
            ..t
        },
        LineClass::Total(n) => ProgressTracker { total: n, ..t },
        LineClass::Other => t,
    }
}

/// What reading one line delivers to the sink, if anything.
pub open spec fn step_emit(t: ProgressTracker, line: Seq<u8>) -> Option<Frac> {
    match classify_line(line) {
        LineClass::Frame(f) => Some(frac_max(t.last, spec_fraction_of(f, t.total))),
        LineClass::Total(n) => None,
        LineClass::Other => None,
    }
}

impl ProgressTracker {
    /// Well-formed: the last delivered value is a fraction strictly below
    /// one whose denominator fits the frame counter's range, and is zero
    /// before any delivery.  Strictness is what lets completion alone
    /// report one.
    pub open spec fn wf(self) -> bool {
        &&& self.last.wf()
        &&& self.last.den <= u32::MAX
        &&& self.last.num < self.last.den
        &&& !self.delivered ==> self.last == (Frac { num: 0, den: 1 })
    }

    /// A fresh tracker: nothing delivered, the default total-frames
    /// estimate in force.
    pub fn new() -> (r: ProgressTracker)
        ensures
            r.wf(),
            r.total == spec_default_total(),
            !r.delivered,
            r.last == (Frac { num: 0, den: 1 }),
    {
        ProgressTracker { total: 1000, last: Frac { num: 0, den: 1 }, delivered: false }
    }

    /// Reads one line of the progress stream.  Returns the fraction to
    /// hand to the sink, if the line calls for a delivery: the computed
    /// fraction, clamped so it never falls below the last delivered value.
    pub fn feed_line(&mut self, line: &[u8]) -> (r: Option<Frac>)
        requires
            old(self).wf(),
        ensures
            final(self).wf(),
            *final(self) == step_state(*old(self), line@),
            r == step_emit(*old(self), line@),
            old(self).last.spec_le(final(self).last),
            r matches Some(f) ==> f == final(self).last && f.wf() && f.num < f.den && old(
                self,
            ).last.spec_le(f),
    {
        match classify(line) {
            LineClass::Frame(f) => {
                let computed = if self.total == 0 {
                    Frac { num: 0, den: 1 }
                } else if f >= self.total {
                    Frac { num: (self.total - 1) as u64, den: self.total as u64 }
                } else {
                    Frac { num: f as u64, den: self.total as u64 }
                };
                let next = self.last.max(computed);
                proof {
                    crate::frac::lemma_le_total(self.last, computed);
                }
                self.last = next;
                self.delivered = true;
                Some(next)
            },
            LineClass::Total(n) => {
                self.total = n;
                None
            },
            LineClass::Other => None,
        }
    }

}

/// The tracker every conversion starts from.
pub open spec fn initial_tracker() -> ProgressTracker {
    ProgressTracker {
        total: spec_default_total(),
        last: Frac { num: 0, den: 1 },
        delivered: false,
    }
}

/// The tracker state after a whole stream of lines.
pub open spec fn run_state(t0: ProgressTracker, lines: Seq<Seq<u8>>) -> ProgressTracker
    decreases lines.len(),
{
    if lines.len() == 0 {
        t0
    } else {
        step_state(run_state(t0, lines.drop_last()), lines.last())
    }
}

/// Every fraction a whole stream of lines delivers to the sink, in order.
pub open spec fn run_emits(t0: ProgressTracker, lines: Seq<Seq<u8>>) -> Seq<Frac>
    decreases lines.len(),
{
    if lines.len() == 0 {
        Seq::empty()
    } else {
        let pre = run_emits(t0, lines.drop_last());
        match step_emit(run_state(t0, lines.drop_last()), lines.last()) {
            Some(f) => pre.push(f),
            None => pre,
        }
    }
}

/// One line preserves well-formedness and never lowers the last
/// delivered value; only a well-formed `frame=` line delivers.
pub proof fn lemma_step(t: ProgressTracker, line: Seq<u8>)
    requires
        t.wf(),
    ensures
        step_state(t, line).wf(),
        t.last.spec_le(step_state(t, line).last),
        step_state(t, line).delivered == (t.delivered || classify_line(line) is Frame),
        match step_emit(t, line) {
            Some(f) => f == step_state(t, line).last && classify_line(line) is Frame,
            None => step_state(t, line).last == t.last && step_state(t, line).delivered
                == t.delivered,
        },
{
    match classify_line(line) {
        LineClass::Frame(f) => {
            crate::frac::lemma_le_total(t.last, spec_fraction_of(f, t.total));
        },
        LineClass::Total(n) => {},
        LineClass::Other => {},
    }
}

/// Over any whole stream, the tracker stays well-formed and the
/// deliveries are well-formed fractions, non-decreasing and strictly
/// below one, each no greater than the final tracked value, which the
/// last delivery equals.
pub proof fn lemma_run(t0: ProgressTracker, lines: Seq<Seq<u8>>)
    requires
        t0.wf(),
    ensures
        run_state(t0, lines).wf(),
        t0.last.spec_le(run_state(t0, lines).last),
        forall|i: int| 0 <= i < run_emits(t0, lines).len() ==> (
        #[trigger] run_emits(t0, lines)[i]).wf() && run_emits(t0, lines)[i].den <= u32::MAX
            && run_emits(t0, lines)[i].num < run_emits(t0, lines)[i].den,
        forall|i: int| 0 <= i < run_emits(t0, lines).len() ==> (
        #[trigger] run_emits(t0, lines)[i]).spec_le(run_state(t0, lines).last),
        forall|i: int, j: int| 0 <= i <= j < run_emits(t0, lines).len() ==> (
        #[trigger] run_emits(t0, lines)[i]).spec_le(#[trigger] run_emits(t0, lines)[j]),
        run_state(t0, lines).delivered == (t0.delivered || run_emits(t0, lines).len() > 0),
        run_emits(t0, lines).len() > 0 ==> run_emits(t0, lines).last() == run_state(
            t0,
            lines,
        ).last,
    decreases lines.len(),
{
    if lines.len() > 0 {
        let prev = lines.drop_last();
        let s = run_state(t0, prev);
        let e = run_emits(t0, prev);
        lemma_run(t0, prev);
        lemma_step(s, lines.last());
        crate::frac::lemma_le_trans(t0.last, s.last, step_state(s, lines.last()).last);
        let s2 = run_state(t0, lines);
        let e2 = run_emits(t0, lines);
        assert forall|i: int| 0 <= i < e2.len() implies (#[trigger] e2[i]).wf() && e2[i].den
            <= u32::MAX && e2[i].num < e2[i].den && e2[i].spec_le(s2.last) by {
            if i < e.len() {
                assert(e2[i] == e[i]);
                crate::frac::lemma_le_trans(e[i], s.last, s2.last);
            }
        }
        assert forall|i: int, j: int| 0 <= i <= j < e2.len() implies (
        #[trigger] e2[i]).spec_le(#[trigger] e2[j]) by {
            if j < e.len() {
                assert(e2[i] == e[i] && e2[j] == e[j]);
            } else if i < e.len() {
                assert(e2[i] == e[i]);
                crate::frac::lemma_le_trans(e[i], s.last, e2[j]);
            }
        }
    }
}

/// The fractions a successful single-file conversion delivers to its
/// sink: what the lines deliver, then the final one owed at completion.
pub open spec fn single_file_deliveries(lines: Seq<Seq<u8>>) -> Seq<Frac> {
    run_emits(initial_tracker(), lines) + seq![Frac { num: 1, den: 1 }]
}

/// Law: over any progress stream, a successful conversion's sink sees at
/// least one fraction; all of them lie in `[0, 1]` and never decrease,
/// every one before the last is strictly below one, and the last one —
/// the completion delivery — is exactly one.  So one is reported exactly
/// once, only at the end.
pub proof fn lemma_single_file_progress(lines: Seq<Seq<u8>>)
    ensures
        single_file_deliveries(lines).len() > 0,
        forall|i: int| 0 <= i < single_file_deliveries(lines).len() ==> (
        #[trigger] single_file_deliveries(lines)[i]).wf() && single_file_deliveries(
            lines,
        )[i].den <= u32::MAX,
        forall|i: int| 0 <= i < single_file_deliveries(lines).len() - 1 ==> (
        #[trigger] single_file_deliveries(lines)[i]).num < single_file_deliveries(
            lines,
        )[i].den,
        forall|i: int, j: int| 0 <= i <= j < single_file_deliveries(lines).len() ==> (
        #[trigger] single_file_deliveries(lines)[i]).spec_le(
            #[trigger] single_file_deliveries(lines)[j],
        ),
        single_file_deliveries(lines).last().is_one(),
{
    let t0 = initial_tracker();
    let e = run_emits(t0, lines);
    let d = single_file_deliveries(lines);
    lemma_run(t0, lines);
    assert(d.last() == (Frac { num: 1, den: 1 }));
    assert forall|i: int, j: int| 0 <= i <= j < d.len() implies (#[trigger] d[i]).spec_le(
        #[trigger] d[j],
    ) by {
        if j < e.len() {
            assert(d[i] == e[i] && d[j] == e[j]);
        } else if i < e.len() {
            assert(d[i] == e[i]);
            crate::frac::lemma_le_bounds(e[i]);
        }
    }
    assert forall|i: int| 0 <= i < d.len() implies (#[trigger] d[i]).wf() && d[i].den
        <= u32::MAX by {
        if i < e.len() {
            assert(d[i] == e[i]);
        }
    }
    assert forall|i: int| 0 <= i < d.len() - 1 implies (#[trigger] d[i]).num < d[i].den by {
        assert(d[i] == e[i]);
    }
}

/// Law: the progress stream alone never drives the sink to one: every
/// mid-stream delivery is strictly below one.  A failing conversion adds
/// no completion delivery, so its sink never observes one at all.
pub proof fn lemma_one_only_at_completion(lines: Seq<Seq<u8>>)
    ensures
        forall|i: int| 0 <= i < run_emits(initial_tracker(), lines).len() ==> (
        #[trigger] run_emits(initial_tracker(), lines)[i]).num < run_emits(
            initial_tracker(),
            lines,
        )[i].den,
{
    lemma_run(initial_tracker(), lines);
}

/// Law: when the stream closes before any well-formed `frame=` line, no
/// intermediate delivery happens, and on success the sink sees exactly
/// one value: the final one.
pub proof fn lemma_stream_without_frames(lines: Seq<Seq<u8>>)
    requires
        forall|i: int| 0 <= i < lines.len() ==> !((#[trigger] classify_line(lines[i])) is Frame),
    ensures
        run_emits(initial_tracker(), lines) == Seq::<Frac>::empty(),
        single_file_deliveries(lines) == seq![Frac { num: 1, den: 1 }],
    decreases lines.len(),
{
    let t0 = initial_tracker();
    if lines.len() == 0 {
        assert(single_file_deliveries(lines) =~= seq![Frac { num: 1, den: 1 }]);
    } else {
        let prev = lines.drop_last();
        assert(forall|i: int| 0 <= i < prev.len() ==> prev[i] == #[trigger] lines[i]);
        lemma_stream_without_frames(prev);
        lemma_run(t0, prev);
        lemma_step(run_state(t0, prev), lines.last());
        assert(!(classify_line(lines.last()) is Frame));
        assert(run_emits(t0, lines) == Seq::<Frac>::empty());
        assert(single_file_deliveries(lines) =~= seq![Frac { num: 1, den: 1 }]);
    }
}

} // verus!

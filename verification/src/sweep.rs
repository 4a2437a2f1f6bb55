//! The batch sweeper: selecting a directory's files and composing
//! per-file progress into overall progress.
//!
//! Over `n` matching files, the per-file fraction `p` of the file with
//! zero-based index `k` maps to overall progress `(k + p) / n`, so the
//! caller's sink observes one non-decreasing ramp over the whole sweep.
//! The sweep runs the files in order and aborts on the first failure.

use vstd::prelude::*;
use crate::driver::{initial_conversion, ConvertError, FileConversion};
use crate::frac::Frac;
use crate::paths::{is_mts_file_name, is_mts_name};
use crate::progress::{step_emit, step_state};

verus! {

/// The file names of a listing that are selected for conversion: those
/// with the `mts` extension, in the listing's order.
pub open spec fn selected_names(names: Seq<Seq<u8>>) -> Seq<Seq<u8>> {
    names.filter(|n: Seq<u8>| is_mts_name(n))
}

/// Selects the file names to convert, keeping the listing's order.
pub fn select_mts_names(names: &Vec<Vec<u8>>) -> (r: Vec<Vec<u8>>)
    ensures
        r.deep_view() == selected_names(names.deep_view()),
{
    let mut out: Vec<Vec<u8>> = Vec::new();
    let mut i: usize = 0;
    proof {
        reveal(Seq::filter);
        assert(names.deep_view().subrange(0, 0) =~= Seq::<Seq<u8>>::empty());
    }
    while i < names.len()
        invariant
            i <= names@.len(),
            names.deep_view().len() == names@.len(),
            out.deep_view() == names.deep_view().subrange(0, i as int).filter(
                |n: Seq<u8>| is_mts_name(n),
            ),
        decreases names@.len() - i,
    {
        let ghost pre = names.deep_view().subrange(0, i as int);
        let ghost cur = names.deep_view().subrange(0, i as int + 1);
        proof {
            assert(cur.drop_last() =~= pre);
            assert(cur.last() == names.deep_view()[i as int]);
            reveal(Seq::filter);
        }
        if is_mts_file_name(&names[i]) {
            let kept = crate::driver::copy_bytes(&names[i]);
            out.push(kept);
            proof {
                assert(names.deep_view()[i as int] == names@[i as int]@);
                assert(out.deep_view() =~= cur.filter(|n: Seq<u8>| is_mts_name(n)));
            }
        } else {
            proof {
                assert(names.deep_view()[i as int] == names@[i as int]@);
                assert(out.deep_view() =~= cur.filter(|n: Seq<u8>| is_mts_name(n)));
            }
        }
        i = i + 1;
    }
    proof {
        assert(names.deep_view().subrange(0, names@.len() as int) =~= names.deep_view());
    }
    out
}

/// Law: a listing in which no name carries the `mts` extension selects
/// nothing, so the sweep over it succeeds at once with the sink never
/// invoked.
pub proof fn lemma_no_match_selects_none(names: Seq<Seq<u8>>)
    requires
        forall|i: int| 0 <= i < names.len() ==> !is_mts_name(#[trigger] names[i]),
    ensures
        selected_names(names).len() == 0,
    decreases names.len(),
{
    reveal(Seq::filter);
    if names.len() > 0 {
        assert(forall|i: int|
            0 <= i < names.drop_last().len() ==> names.drop_last()[i] == #[trigger] names[i]);
        lemma_no_match_selects_none(names.drop_last());
    }
}

/// The per-file fraction `p` of the file with zero-based index `k` of
/// `n`, as overall progress `(k + p) / n`.
pub open spec fn spec_scaled(k: u32, n: u32, p: Frac) -> Frac {
    Frac { num: (k * p.den + p.num) as u64, den: (n * p.den) as u64 }
}

/// Products of frame- and file-counts fit the word the fractions use.
proof fn lemma_scale_fits(k: u32, n: u32, p: Frac)
    by (nonlinear_arith)
    requires
        p.wf(),
        p.den <= u32::MAX,
        k < n,
    ensures
        k * p.den + p.num <= u64::MAX,
        n * p.den <= u64::MAX,
        1 <= n * p.den,
        k * p.den + p.num <= n * p.den,
{
}

/// Scaling keeps the rational order: a later per-file fraction maps to a
/// later overall fraction.
pub proof fn lemma_scaled_mono(k: u32, n: u32, p: Frac, q: Frac)
    by (nonlinear_arith)
    requires
        p.wf(),
        q.wf(),
        p.den <= u32::MAX,
        q.den <= u32::MAX,
        k < n,
        p.spec_le(q),
    ensures
        spec_scaled(k, n, p).spec_le(spec_scaled(k, n, q)),
{
}

/// Overall progress during the file with zero-based index `k` stays
/// within `[k/n, (k+1)/n]`.
pub proof fn lemma_scaled_bounds(k: u32, n: u32, p: Frac)
    by (nonlinear_arith)
    requires
        p.wf(),
        p.den <= u32::MAX,
        k < n,
    ensures
        spec_scaled(k, n, p).wf(),
        (Frac { num: k as u64, den: n as u64 }).spec_le(spec_scaled(k, n, p)),
        spec_scaled(k, n, p).spec_le(Frac { num: (k + 1) as u64, den: n as u64 }),
        p.is_one() ==> spec_scaled(k, n, p).same_value(Frac { num: (k + 1) as u64, den: n as u64 }),
        p.is_zero() ==> spec_scaled(k, n, p).same_value(Frac { num: k as u64, den: n as u64 }),
        p.num < p.den ==> spec_scaled(k, n, p).num < spec_scaled(k, n, p).den,
{
}

/// Composes per-file progress over a directory sweep of `files_total`
/// selected files into the overall fractions the caller's sink observes.
pub struct SweepProgress {
    /// How many files the sweep covers; at least one.
    pub files_total: u32,
    /// How many files have succeeded so far.
    pub files_done: u32,
    /// The driver of the file now converting.
    pub conv: FileConversion,
    /// The last overall fraction delivered.
    pub last_overall: Frac,
}

impl SweepProgress {
    /// Well-formed: counters in range, the current driver well-formed,
    /// and the last overall delivery tied to the current file's band:
    /// once the current file has delivered, the last overall value is
    /// exactly its scaled fraction; before that it is no greater.
    pub open spec fn wf(self) -> bool {
        &&& 1 <= self.files_total
        &&& self.files_done <= self.files_total
        &&& self.conv.wf()
        &&& self.last_overall.wf()
        &&& self.files_done < self.files_total ==> if self.conv.tracker.delivered {
            self.last_overall == spec_scaled(
                self.files_done,
                self.files_total,
                self.conv.tracker.last,
            )
        } else {
            self.last_overall.spec_le(
                spec_scaled(self.files_done, self.files_total, self.conv.tracker.last),
            )
        }
        &&& self.files_done == self.files_total ==> self.last_overall.is_one()
    }

    /// Starts a sweep over `files_total` selected files.
    pub fn new(files_total: u32) -> (r: SweepProgress)
        requires
            1 <= files_total,
        ensures
            r.wf(),
            r.files_total == files_total,
            r.files_done == 0,
            r.conv == initial_conversion(),
            r.last_overall == (Frac { num: 0, den: 1 }),
    {
        let r = SweepProgress {
            files_total,
            files_done: 0,
            conv: FileConversion::new(),
            last_overall: Frac::zero(),
        };
        proof {
            lemma_scaled_bounds(0, files_total, r.conv.tracker.last);
            assert(r.last_overall.spec_le(spec_scaled(0, files_total, r.conv.tracker.last)))
                by (nonlinear_arith)
                requires
                    r.last_overall == (Frac { num: 0, den: 1 }),
                    spec_scaled(0, files_total, r.conv.tracker.last).wf(),
            ;
        }
        r
    }

    /// Reads one line of the current file's progress stream; returns the
    /// overall fraction owed to the sink, if any: the driver's delivery
    /// for that line, scaled into the current file's band.  Deliveries
    /// never fall below the last one.  After a stream error nothing more
    /// is forwarded.
    pub fn on_line(&mut self, line: &[u8]) -> (r: Option<Frac>)
        requires
            old(self).wf(),
            old(self).files_done < old(self).files_total,
        ensures
            final(self).wf(),
            final(self).files_total == old(self).files_total,
            final(self).files_done == old(self).files_done,
            final(self).conv.stream_failed == old(self).conv.stream_failed,
            old(self).conv.stream_failed ==> r is None && *final(self) == *old(self),
            !old(self).conv.stream_failed ==> {
                &&& final(self).conv.tracker == step_state(old(self).conv.tracker, line@)
                &&& r == match step_emit(old(self).conv.tracker, line@) {
                    Some(f) => Some(
                        spec_scaled(old(self).files_done, old(self).files_total, f),
                    ),
                    None => None::<Frac>,
                }
            },
            r matches Some(f) ==> {
                &&& f.wf()
                &&& f.num < f.den
                &&& f == final(self).last_overall
                &&& old(self).last_overall.spec_le(f)
                &&& (Frac { num: old(self).files_done as u64, den: old(self).files_total as u64 }).spec_le(f)
                &&& f.spec_le(Frac {
                    num: (old(self).files_done + 1) as u64,
                    den: old(self).files_total as u64,
                })
            },
            r is None ==> final(self).last_overall == old(self).last_overall,
    {
        let ghost pre = *self;
        let k = self.files_done;
        let n = self.files_total;
        let emitted = self.conv.on_line(line);
        match emitted {
            Some(f) => {
                proof {
                    lemma_scale_fits(k, n, f);
                    lemma_scaled_mono(k, n, pre.conv.tracker.last, f);
                    lemma_scaled_bounds(k, n, f);
                    crate::frac::lemma_le_trans(
                        pre.last_overall,
                        spec_scaled(k, n, pre.conv.tracker.last),
                        spec_scaled(k, n, f),
                    );
                }
                let overall = Frac {
                    num: (k as u64) * f.den + f.num,
                    den: (n as u64) * f.den,
                };
                proof {
                    assert(overall == spec_scaled(k, n, f));
                }
                self.last_overall = overall;
                Some(overall)
            },
            None => None,
        }
    }

    /// Notes that reading the current file's progress stream failed:
    /// forwarding stops, and nothing else changes.
    pub fn on_stream_error(&mut self)
        requires
            old(self).wf(),
        ensures
            final(self).wf(),
            *final(self) == (SweepProgress {
                conv: FileConversion { stream_failed: true, ..old(self).conv },
                ..*old(self)
            }),
    {
        self.conv.on_stream_error();
    }

    /// Maps the current file's exit into the sweep's next step.  On
    /// success the file is counted done, a fresh driver stands ready for
    /// the next file, and the boundary delivery `(k+1)/n` is owed to the
    /// sink — mid-stream deliveries stay strictly below it, so each
    /// boundary is observed before the next file begins, and the last
    /// one is exactly one.  The sweep's caller aborts on the first
    /// failure, which changes nothing and delivers nothing.
    pub fn on_file_exit(&mut self, success: bool, exit_code: Option<i32>) -> (r: (
        Result<(), ConvertError>,
        Option<Frac>,
    ))
        requires
            old(self).wf(),
            old(self).files_done < old(self).files_total,
        ensures
            final(self).wf(),
            final(self).files_total == old(self).files_total,
            r.0 is Ok <==> success,
            !success ==> {
                &&& r.0 matches Err(e) && e == (ConvertError::ToolFailed { exit_code })
                &&& r.1 is None
                &&& *final(self) == *old(self)
            },
            success ==> {
                &&& final(self).files_done == old(self).files_done + 1
                &&& final(self).conv == initial_conversion()
                &&& final(self).last_overall == spec_scaled(
                    old(self).files_done,
                    old(self).files_total,
                    Frac { num: 1, den: 1 },
                )
                &&& final(self).last_overall.same_value(Frac {
                    num: (old(self).files_done + 1) as u64,
                    den: old(self).files_total as u64,
                })
                &&& r.1 == Some(final(self).last_overall)
                &&& old(self).last_overall.spec_le(final(self).last_overall)
            },
            final(self).files_done == final(self).files_total ==> final(self).last_overall.is_one(),
    {
        if !success {
            return (Err(ConvertError::ToolFailed { exit_code }), None);
        }
        let ghost pre = *self;
        let k = self.files_done;
        let n = self.files_total;
        let one = Frac::one();
        proof {
            lemma_scale_fits(k, n, one);
            lemma_scaled_mono(k, n, pre.conv.tracker.last, one);
            lemma_scaled_bounds(k, n, one);
            crate::frac::lemma_le_bounds(pre.conv.tracker.last);
            crate::frac::lemma_le_trans(
                pre.last_overall,
                spec_scaled(k, n, pre.conv.tracker.last),
                spec_scaled(k, n, one),
            );
        }
        let overall = Frac { num: (k as u64) * one.den + one.num, den: (n as u64) * one.den };
        self.last_overall = overall;
        self.files_done = k + 1;
        self.conv = FileConversion::new();
        proof {
            let post = *self;
            assert(post.last_overall == spec_scaled(k, n, Frac { num: 1, den: 1 }));
            if post.files_done < post.files_total {
                lemma_scaled_bounds(post.files_done, post.files_total, post.conv.tracker.last);
                assert(spec_scaled(post.files_done, post.files_total, post.conv.tracker.last)
                    == (Frac { num: post.files_done as u64, den: post.files_total as u64 }));
            } else {
                lemma_value_one(post.last_overall, n);
            }
        }
        (Ok(()), Some(overall))
    }
}

/// A fraction with the same value as `n/n` is one.
proof fn lemma_value_one(a: Frac, n: u32)
    by (nonlinear_arith)
    requires
        a.wf(),
        1 <= n,
        a.same_value(Frac { num: n as u64, den: n as u64 }),
    ensures
        a.is_one(),
{
}

/// Every overall fraction a sweep of `n` files delivers while its first
/// `streams.len()` files convert and succeed in turn, `streams` holding
/// each file's progress lines: each file's deliveries, scaled into its
/// band, one file after the other.
pub open spec fn sweep_deliveries(n: u32, streams: Seq<Seq<Seq<u8>>>) -> Seq<Frac>
    decreases streams.len(),
{
    if streams.len() == 0 {
        Seq::empty()
    } else {
        let k = (streams.len() - 1) as u32;
        sweep_deliveries(n, streams.drop_last()) + crate::progress::single_file_deliveries(
            streams.last(),
        ).map_values(|f: Frac| spec_scaled(k, n, f))
    }
}

/// Law: over a directory sweep of `n` files whose first `m` files all
/// succeed, the sink observes a non-decreasing sequence of fractions in
/// `[0, 1]` that stands at exactly `m/n` after the `m`-th file — so it
/// observes `k/n` before the file with index `k` begins, and exactly one
/// after the `n`-th succeeds.
pub proof fn lemma_sweep_progress(n: u32, streams: Seq<Seq<Seq<u8>>>)
    requires
        1 <= streams.len() <= n,
    ensures
        sweep_deliveries(n, streams).len() > 0,
        forall|i: int| 0 <= i < sweep_deliveries(n, streams).len() ==> (
        #[trigger] sweep_deliveries(n, streams)[i]).wf(),
        forall|i: int, j: int| 0 <= i <= j < sweep_deliveries(n, streams).len() ==> (
        #[trigger] sweep_deliveries(n, streams)[i]).spec_le(
            #[trigger] sweep_deliveries(n, streams)[j],
        ),
        sweep_deliveries(n, streams).last().same_value(
            Frac { num: streams.len() as u64, den: n as u64 },
        ),
        streams.len() == n ==> sweep_deliveries(n, streams).last().is_one(),
    decreases streams.len(),
{
    let m = streams.len() as int;
    let k = (m - 1) as u32;
    let s = crate::progress::single_file_deliveries(streams.last());
    crate::progress::lemma_single_file_progress(streams.last());
    let seg = s.map_values(|f: Frac| spec_scaled(k, n, f));
    let d = sweep_deliveries(n, streams);
    assert forall|i: int| 0 <= i < seg.len() implies {
        &&& (#[trigger] seg[i]).wf()
        &&& (Frac { num: k as u64, den: n as u64 }).spec_le(seg[i])
    } by {
        assert(seg[i] == spec_scaled(k, n, s[i]));
        lemma_scaled_bounds(k, n, s[i]);
    }
    assert forall|i: int, j: int| 0 <= i <= j < seg.len() implies (#[trigger] seg[i]).spec_le(
        #[trigger] seg[j],
    ) by {
        assert(seg[i] == spec_scaled(k, n, s[i]));
        assert(seg[j] == spec_scaled(k, n, s[j]));
        lemma_scaled_mono(k, n, s[i], s[j]);
    }
    assert(seg.last() == spec_scaled(k, n, s.last()));
    assert(seg.last().same_value(Frac { num: (k + 1) as u64, den: n as u64 })) by {
        lemma_scaled_bounds(k, n, s.last());
    }
    if m == 1 {
        assert(d =~= seg);
        assert(d.last() == seg.last());
    } else {
        let prefix = sweep_deliveries(n, streams.drop_last());
        lemma_sweep_progress(n, streams.drop_last());
        assert(prefix.last().same_value(Frac { num: (m - 1) as u64, den: n as u64 }));
        assert forall|i: int, j: int| 0 <= i <= j < d.len() implies (#[trigger] d[i]).spec_le(
            #[trigger] d[j],
        ) by {
            if j < prefix.len() {
                assert(d[i] == prefix[i] && d[j] == prefix[j]);
            } else if i >= prefix.len() {
                assert(d[i] == seg[i - prefix.len()] && d[j] == seg[j - prefix.len()]);
            } else {
                assert(d[i] == prefix[i] && d[j] == seg[j - prefix.len()]);
                let boundary = Frac { num: (m - 1) as u64, den: n as u64 };
                assert(prefix[i].spec_le(prefix.last()));
                assert(prefix.last().spec_le(boundary));
                assert(boundary.spec_le(seg[j - prefix.len()]));
                crate::frac::lemma_le_trans(prefix[i], prefix.last(), boundary);
                crate::frac::lemma_le_trans(prefix[i], boundary, seg[j - prefix.len()]);
            }
        }
        assert forall|i: int| 0 <= i < d.len() implies (#[trigger] d[i]).wf() by {
            if i < prefix.len() {
                assert(d[i] == prefix[i]);
            } else {
                assert(d[i] == seg[i - prefix.len()]);
            }
        }
        assert(d.last() == seg.last());
    }
    if m == n {
        lemma_value_one(d.last(), n);
    }
}

/// Every overall fraction observed when the sweep's first
/// `streams.len()` files succeed and the next file then runs (and, in
/// the end, fails): the completed files' deliveries, then the failing
/// file's own, scaled into its band.  A failed file's exit delivers
/// nothing further.
pub open spec fn aborted_sweep_deliveries(
    n: u32,
    streams: Seq<Seq<Seq<u8>>>,
    partial: Seq<Seq<u8>>,
) -> Seq<Frac> {
    sweep_deliveries(n, streams) + crate::progress::run_emits(
        crate::progress::initial_tracker(),
        partial,
    ).map_values(|f: Frac| spec_scaled(streams.len() as u32, n, f))
}

/// Law: when the file with zero-based index `k` fails after `k`
/// successes, the sweep aborts: the files after it are never started,
/// no observed value exceeds `(k+1)/n`, and the sink is never driven to
/// one — a failing file delivers nothing at its exit, and every other
/// delivery is strictly below one.
pub proof fn lemma_sweep_abort(n: u32, streams: Seq<Seq<Seq<u8>>>, partial: Seq<Seq<u8>>)
    requires
        streams.len() < n,
    ensures
        forall|i: int| 0 <= i < aborted_sweep_deliveries(n, streams, partial).len() ==> (
        #[trigger] aborted_sweep_deliveries(n, streams, partial)[i]).spec_le(
            Frac { num: (streams.len() + 1) as u64, den: n as u64 },
        ),
        forall|i: int| 0 <= i < aborted_sweep_deliveries(n, streams, partial).len() ==> (
        #[trigger] aborted_sweep_deliveries(n, streams, partial)[i]).num
            < aborted_sweep_deliveries(n, streams, partial)[i].den,
{
    let k = streams.len() as u32;
    let t0 = crate::progress::initial_tracker();
    let e = crate::progress::run_emits(t0, partial);
    let seg = e.map_values(|f: Frac| spec_scaled(k, n, f));
    let d = aborted_sweep_deliveries(n, streams, partial);
    let top = Frac { num: (streams.len() + 1) as u64, den: n as u64 };
    crate::progress::lemma_run(t0, partial);
    assert forall|i: int| 0 <= i < seg.len() implies (#[trigger] seg[i]).spec_le(top)
        && seg[i].num < seg[i].den by {
        assert(seg[i] == spec_scaled(k, n, e[i]));
        lemma_scaled_bounds(k, n, e[i]);
    }
    if streams.len() == 0 {
        assert(sweep_deliveries(n, streams).len() == 0);
        assert(forall|i: int| 0 <= i < d.len() ==> #[trigger] d[i] == seg[i]);
    } else {
        let prefix = sweep_deliveries(n, streams);
        lemma_sweep_progress(n, streams);
        let boundary = Frac { num: streams.len() as u64, den: n as u64 };
        assert(boundary.spec_le(top)) by (nonlinear_arith)
            requires
                boundary.num + 1 == top.num,
                boundary.den == top.den,
                1 <= boundary.den,
        ;
        assert forall|i: int| 0 <= i < d.len() implies (#[trigger] d[i]).spec_le(top)
            && d[i].num < d[i].den by {
            if i < prefix.len() {
                assert(d[i] == prefix[i]);
                assert(prefix[i].spec_le(prefix.last()));
                assert(prefix.last().spec_le(boundary));
                crate::frac::lemma_le_trans(prefix[i], prefix.last(), boundary);
                crate::frac::lemma_le_trans(prefix[i], boundary, top);
                crate::frac::lemma_below_one(prefix[i], boundary);
            } else {
                assert(d[i] == seg[i - prefix.len()]);
            }
        }
    }
}

} // verus!

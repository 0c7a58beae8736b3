//! Printing selected frames: which frames a selection picks, and how a
//! frame is printed as a screen snapshot.
use vstd::prelude::*;
use crate::cli::FrameSpec;
use crate::cmd::ls_frames::{push_fixed6, spec_fixed6};
use crate::asciicast::Event;
use crate::frames::{
    escape_controls, frame_ok, frames_match, lemma_frames_bounded, spec_escape_controls, spec_frames,
    CellInfo, Frame, FrameDesc, FrameKind,
};
use crate::text::{append_chars, append_str, chars_of, push_decimal, spec_decimal, string_from_chars};

verus! {

/// A time selector, in microseconds.
#[derive(Clone, Copy, Debug, PartialEq, Eq, Structural)]
pub enum TimeSel {
    /// The frame displayed at this time.
    Point(u128),
    /// The frames within this time range.
    Range(u128, u128),
}

/// A resolved set of frame selectors that decides, frame by frame in order,
/// whether a frame belongs to the selection, without the whole frame list.
pub struct Selection {
    pub frame_ranges: Vec<(usize, usize)>,
    pub times: Vec<TimeSel>,
    pub max_frame: usize,
    pub max_time: Option<u128>,
}

/// The largest end of the frame ranges, 0 when there are none.
pub open spec fn max_end(ranges: Seq<(usize, usize)>) -> usize
    decreases ranges.len(),
{
    if ranges.len() == 0 {
        0
    } else {
        let m = max_end(ranges.drop_last());
        if ranges.last().1 > m {
            ranges.last().1
        } else {
            m
        }
    }
}

/// The latest time a selector looks at: the point, or the end of the range.
pub open spec fn sel_end(s: TimeSel) -> u128 {
    match s {
        TimeSel::Point(p) => p,
        TimeSel::Range(_, b) => b,
    }
}

/// The latest time among the selectors, `None` when there are none.
pub open spec fn max_sel_time(times: Seq<TimeSel>) -> Option<u128>
    decreases times.len(),
{
    if times.len() == 0 {
        None
    } else {
        let e = sel_end(times.last());
        match max_sel_time(times.drop_last()) {
            None => Some(e),
            Some(m) => Some(if e > m {
                e
            } else {
                m
            }),
        }
    }
}

/// All the ranges of the frame specs, in order.
pub open spec fn all_ranges(specs: Seq<FrameSpec>) -> Seq<(usize, usize)>
    decreases specs.len(),
{
    if specs.len() == 0 {
        seq![]
    } else {
        all_ranges(specs.drop_last()) + specs.last().0@
    }
}

/// Whether a time selector picks the frame at `time`, whose neighbours are
/// at `prev` and `next` (`None` at the ends). A point picks the last frame
/// at or before it; a range picks the last frame at or before its start,
/// every frame strictly inside it and the first frame at or after its end.
pub open spec fn time_selects(s: TimeSel, time: u128, prev: Option<u128>, next: Option<u128>) -> bool {
    match s {
        TimeSel::Point(p) => time <= p && (next matches Some(n) ==> n > p),
        TimeSel::Range(a, b) => (time <= a && (next matches Some(n) ==> n > a)) || (time > a && time
            < b) || (time >= b && (prev matches Some(q) ==> q < b)),
    }
}

/// Whether the frame `number` at `time` is selected.
pub open spec fn spec_is_selected(
    sel: Selection,
    number: usize,
    time: u128,
    prev: Option<u128>,
    next: Option<u128>,
) -> bool {
    (exists|i: int|
        0 <= i < sel.frame_ranges@.len() && (#[trigger] sel.frame_ranges@[i]).0 <= number
            <= sel.frame_ranges@[i].1) || (exists|i: int|
        0 <= i < sel.times@.len() && time_selects(#[trigger] sel.times@[i], time, prev, next))
}

/// Whether replay can stop after the frame `number` at `time`, whose
/// successor is at `next` (`None` at the end): the frame is past every frame
/// range, and it and its successor are past every time selector. With frame
/// numbers increasing and times non-decreasing, no later frame can then be
/// selected (see `lemma_select_takes_all_selected`).
pub open spec fn spec_done(sel: Selection, number: usize, time: u128, next: Option<u128>) -> bool {
    number >= sel.max_frame && (sel.max_time matches Some(m) ==> time >= m && (next matches Some(
        n,
    ) ==> n > m))
}

impl Selection {
    /// The selection of the frame ranges of `frame_specs` and the time
    /// selectors `times`.
    pub fn new(frame_specs: &Vec<FrameSpec>, times: Vec<TimeSel>) -> (s: Self)
        ensures
            s.frame_ranges@ == all_ranges(frame_specs@),
            s.times@ == times@,
            s.max_frame == max_end(all_ranges(frame_specs@)),
            s.max_time == max_sel_time(times@),
            (forall|i: int|
                0 <= i < times@.len() ==> (#[trigger] times@[i] matches TimeSel::Range(a, b) ==> a
                    <= b)) ==> selection_wf(s),
    {
        let mut frame_ranges: Vec<(usize, usize)> = Vec::new();
        let mut k: usize = 0;
        while k < frame_specs.len()
            invariant
                k <= frame_specs@.len(),
                frame_ranges@ == all_ranges(frame_specs@.take(k as int)),
            decreases frame_specs@.len() - k,
        {
            assert(frame_specs@.take(k + 1).drop_last() =~= frame_specs@.take(k as int));
            let spec = &frame_specs[k];
            let mut j: usize = 0;
            let ghost base = frame_ranges@;
            while j < spec.0.len()
                invariant
                    j <= spec.0@.len(),
                    frame_ranges@ == base + spec.0@.take(j as int),
                decreases spec.0@.len() - j,
            {
                frame_ranges.push(spec.0[j]);
                j = j + 1;
                assert(frame_ranges@ =~= base + spec.0@.take(j as int));
            }
            assert(spec.0@.take(j as int) =~= spec.0@);
            k = k + 1;
        }
        assert(frame_specs@.take(k as int) =~= frame_specs@);
        let mut max_frame: usize = 0;
        let mut i: usize = 0;
        while i < frame_ranges.len()
            invariant
                i <= frame_ranges@.len(),
                max_frame == max_end(frame_ranges@.take(i as int)),
            decreases frame_ranges@.len() - i,
        {
            assert(frame_ranges@.take(i + 1).drop_last() =~= frame_ranges@.take(i as int));
            if frame_ranges[i].1 > max_frame {
                max_frame = frame_ranges[i].1;
            }
            i = i + 1;
        }
        assert(frame_ranges@.take(i as int) =~= frame_ranges@);
        let mut max_time: Option<u128> = None;
        let mut t: usize = 0;
        while t < times.len()
            invariant
                t <= times@.len(),
                max_time == max_sel_time(times@.take(t as int)),
            decreases times@.len() - t,
        {
            assert(times@.take(t + 1).drop_last() =~= times@.take(t as int));
            let e = match times[t] {
                TimeSel::Point(p) => p,
                TimeSel::Range(_, b) => b,
            };
            max_time = match max_time {
                None => Some(e),
                Some(m) => Some(
                    if e > m {
                        e
                    } else {
                        m
                    },
                ),
            };
            t = t + 1;
        }
        assert(times@.take(t as int) =~= times@);
        Selection { frame_ranges, times, max_frame, max_time }
    }

    /// Whether the frame `number` at `time` is selected; `prev` and `next`
    /// are the times of the neighbouring frames (`None` at the ends). Times
    /// are taken to be non-decreasing, which `frames` guarantees.
    pub fn is_selected(&self, number: usize, time: u128, prev: Option<u128>, next: Option<u128>) -> (r: bool)
        ensures
            r == spec_is_selected(*self, number, time, prev, next),
    {
        let mut i: usize = 0;
        while i < self.frame_ranges.len()
            invariant
                i <= self.frame_ranges@.len(),
                forall|j: int|
                    0 <= j < i ==> !((#[trigger] self.frame_ranges@[j]).0 <= number
                        <= self.frame_ranges@[j].1),
            decreases self.frame_ranges@.len() - i,
        {
            let (start, end) = self.frame_ranges[i];
            if number >= start && number <= end {
                assert(self.frame_ranges@[i as int].0 <= number <= self.frame_ranges@[i as int].1);
                return true;
            }
            i = i + 1;
        }
        let mut k: usize = 0;
        while k < self.times.len()
            invariant
                k <= self.times@.len(),
                forall|j: int| 0 <= j < k ==> !time_selects(#[trigger] self.times@[j], time, prev, next),
            decreases self.times@.len() - k,
        {
            let hit = match self.times[k] {
                TimeSel::Point(p) => time <= p && match next {
                    Some(n) => n > p,
                    None => true,
                },
                TimeSel::Range(a, b) => (time <= a && match next {
                    Some(n) => n > a,
                    None => true,
                }) || (time > a && time < b) || (time >= b && match prev {
                    Some(q) => q < b,
                    None => true,
                }),
            };
            if hit {
                assert(time_selects(self.times@[k as int], time, prev, next));
                return true;
            }
            k = k + 1;
        }
        false
    }

    /// Whether no later frame can match, so replay can stop after the frame
    /// `number` at `time`; `next` is the time of the frame after it (`None`
    /// at the end).
    pub fn done(&self, number: usize, time: u128, next: Option<u128>) -> (r: bool)
        ensures
            r == spec_done(*self, number, time, next),
    {
        number >= self.max_frame && match self.max_time {
            Some(m) => time >= m && match next {
                Some(n) => n > m,
                None => true,
            },
            None => true,
        }
    }
}

/// The time of the frame before `k`, if any.
pub open spec fn prev_time(fs: Seq<Frame>, k: int) -> Option<u128> {
    if k <= 0 {
        None
    } else {
        Some(fs[k - 1].time as u128)
    }
}

/// The time of the frame after `k`, if any.
pub open spec fn next_time(fs: Seq<Frame>, k: int) -> Option<u128> {
    if k + 1 < fs.len() {
        Some(fs[k + 1].time as u128)
    } else {
        None
    }
}

/// Whether replay may stop after the frame at position `j`.
pub open spec fn done_at(sel: Selection, fs: Seq<Frame>, j: int) -> bool {
    spec_done(sel, fs[j].number, fs[j].time as u128, next_time(fs, j))
}

/// Whether one of the first `k` frames ended the selection.
pub open spec fn stopped(sel: Selection, fs: Seq<Frame>, k: int) -> bool {
    exists|j: int| 0 <= j < k && #[trigger] done_at(sel, fs, j)
}

/// The positions of the selected frames among the first `k`: a frame is
/// taken when it is selected and no earlier frame ended the selection.
pub open spec fn picks(sel: Selection, fs: Seq<Frame>, k: int) -> Seq<int>
    decreases k,
{
    if k <= 0 {
        seq![]
    } else {
        picks(sel, fs, k - 1) + if !stopped(sel, fs, k - 1) && spec_is_selected(
            sel,
            fs[k - 1].number,
            fs[k - 1].time as u128,
            prev_time(fs, k - 1),
            next_time(fs, k - 1),
        ) {
            seq![k - 1]
        } else {
            seq![]
        }
    }
}

/// The selected frames, in order; the frames are consumed once, with one
/// frame of lookahead, and the replay stops as soon as no later frame can
/// match.
pub fn select(frames: Vec<Frame>, selection: &Selection) -> (r: Vec<Frame>)
    ensures
        r@.len() == picks(*selection, frames@, frames@.len() as int).len(),
        forall|m: int|
            0 <= m < r@.len() ==> #[trigger] r@[m] == frames@[picks(
                *selection,
                frames@,
                frames@.len() as int,
            )[m]],
        frames_ordered(frames@) && selection_wf(*selection) ==> picks(
            *selection,
            frames@,
            frames@.len() as int,
        ) == all_picks(*selection, frames@, frames@.len() as int),
{
    let ghost fs = frames@;
    let n = frames.len();
    let mut rest = crate::util::reversed(frames);
    let mut out: Vec<Frame> = Vec::new();
    let mut prev: Option<u128> = None;
    let mut k: usize = 0;
    while rest.len() > 0
        invariant
            fs == frames@,
            n == fs.len(),
            k + rest@.len() == n,
            forall|j: int| 0 <= j < rest@.len() ==> rest@[j] == fs[n - 1 - j],
            prev == prev_time(fs, k as int),
            !stopped(*selection, fs, k as int),
            out@.len() == picks(*selection, fs, k as int).len(),
            forall|m: int| 0 <= m < out@.len() ==> #[trigger] out@[m] == fs[picks(*selection, fs, k as int)[m]],
        ensures
            k <= n,
            out@.len() == picks(*selection, fs, n as int).len(),
            forall|m: int| 0 <= m < out@.len() ==> #[trigger] out@[m] == fs[picks(*selection, fs, n as int)[m]],
        decreases rest@.len(),
    {
        let frame = rest.pop().unwrap();
        assert(frame == fs[k as int]);
        let time = frame.time as u128;
        let next: Option<u128> = if rest.len() > 0 {
            Some(rest[rest.len() - 1].time as u128)
        } else {
            None
        };
        assert(next == next_time(fs, k as int));
        let selected = selection.is_selected(frame.number, time, prev, next);
        let done = selection.done(frame.number, time, next);
        prev = Some(time);
        let ghost before = picks(*selection, fs, k as int);
        if selected {
            out.push(frame);
        }
        assert(picks(*selection, fs, k + 1) =~= before + if selected {
            seq![k as int]
        } else {
            seq![]
        });
        k = k + 1;
        if done {
            proof {
                assert(done_at(*selection, fs, k - 1));
                assert(stopped(*selection, fs, k as int));
                lemma_picks_after_stop(*selection, fs, k as int, n as int);
                if frames_ordered(fs) && selection_wf(*selection) {
                    lemma_select_takes_all_selected(*selection, fs, n as int);
                }
            }
            return out;
        }
        assert(!stopped(*selection, fs, k as int)) by {
            if stopped(*selection, fs, k as int) {
                let j = choose|j: int| 0 <= j < k && #[trigger] done_at(*selection, fs, j);
                assert(j == k - 1 || stopped(*selection, fs, k - 1));
            }
        }
    }
    proof {
        if frames_ordered(fs) && selection_wf(*selection) {
            lemma_select_takes_all_selected(*selection, fs, n as int);
        }
    }
    out
}

/// The time of the last frame before position `k` among read results.
pub open spec fn frame_time_before<E>(its: Seq<Result<Frame, E>>, k: int) -> Option<u128>
    decreases k,
{
    if k <= 0 {
        None
    } else {
        match its[k - 1] {
            Ok(f) => Some(f.time as u128),
            Err(_) => frame_time_before(its, k - 1),
        }
    }
}

/// The time of the result after position `k` when it is a frame.
pub open spec fn peeked_time<E>(its: Seq<Result<Frame, E>>, k: int) -> Option<u128> {
    if k + 1 < its.len() {
        match its[k + 1] {
            Ok(f) => Some(f.time as u128),
            Err(_) => None,
        }
    } else {
        None
    }
}

/// Whether replay may stop after the result at position `j`: a frame that
/// ends the selection.
pub open spec fn result_done_at<E>(sel: Selection, its: Seq<Result<Frame, E>>, j: int) -> bool {
    its[j] matches Ok(f) && spec_done(sel, f.number, f.time as u128, peeked_time(its, j))
}

/// Whether one of the first `k` results ended the selection.
pub open spec fn result_stopped<E>(sel: Selection, its: Seq<Result<Frame, E>>, k: int) -> bool {
    exists|j: int| 0 <= j < k && #[trigger] result_done_at(sel, its, j)
}

/// The positions of the results passed on among the first `k`: until the
/// selection has ended, every error and every selected frame.
pub open spec fn result_picks<E>(sel: Selection, its: Seq<Result<Frame, E>>, k: int) -> Seq<int>
    decreases k,
{
    if k <= 0 {
        seq![]
    } else {
        result_picks(sel, its, k - 1) + if !result_stopped(sel, its, k - 1) && match its[k - 1] {
            Err(_) => true,
            Ok(f) => spec_is_selected(
                sel,
                f.number,
                f.time as u128,
                frame_time_before(its, k - 1),
                peeked_time(its, k - 1),
            ),
        } {
            seq![k - 1]
        } else {
            seq![]
        }
    }
}

/// Once a frame has ended the selection, no later result is passed on.
proof fn lemma_result_picks_after_stop<E>(
    sel: Selection,
    its: Seq<Result<Frame, E>>,
    k: int,
    n: int,
)
    requires
        0 <= k <= n,
        result_stopped(sel, its, k),
    ensures
        result_picks(sel, its, n) == result_picks(sel, its, k),
    decreases n - k,
{
    if n > k {
        lemma_result_picks_after_stop(sel, its, k, n - 1);
        let j = choose|j: int| 0 <= j < k && #[trigger] result_done_at(sel, its, j);
        assert(result_stopped(sel, its, n - 1));
        assert(result_picks(sel, its, n) =~= result_picks(sel, its, n - 1));
    }
}

/// Selects among read results, passing each read error through in its
/// place: in order, every error and every selected frame up to the frame
/// after which no later frame can match. A frame's lookahead is the next
/// result when that is a frame.
pub fn select_results<E>(items: Vec<Result<Frame, E>>, selection: &Selection) -> (r: Vec<
    Result<Frame, E>,
>)
    ensures
        r@.len() == result_picks(*selection, items@, items@.len() as int).len(),
        forall|m: int|
            0 <= m < r@.len() ==> #[trigger] r@[m] == items@[result_picks(
                *selection,
                items@,
                items@.len() as int,
            )[m]],
{
    let ghost its = items@;
    let n = items.len();
    let mut rest = crate::util::reversed(items);
    let mut out: Vec<Result<Frame, E>> = Vec::new();
    let mut prev: Option<u128> = None;
    let mut k: usize = 0;
    while rest.len() > 0
        invariant
            its == items@,
            n == its.len(),
            k + rest@.len() == n,
            forall|j: int| 0 <= j < rest@.len() ==> rest@[j] == its[n - 1 - j],
            prev == frame_time_before(its, k as int),
            !result_stopped(*selection, its, k as int),
            out@.len() == result_picks(*selection, its, k as int).len(),
            forall|m: int|
                0 <= m < out@.len() ==> #[trigger] out@[m] == its[result_picks(
                    *selection,
                    its,
                    k as int,
                )[m]],
        ensures
            k <= n,
            out@.len() == result_picks(*selection, its, n as int).len(),
            forall|m: int|
                0 <= m < out@.len() ==> #[trigger] out@[m] == its[result_picks(
                    *selection,
                    its,
                    n as int,
                )[m]],
        decreases rest@.len(),
    {
        let item = rest.pop().unwrap();
        assert(item == its[k as int]);
        let ghost before = result_picks(*selection, its, k as int);
        let mut done = false;
        match item {
            Err(x) => {
                out.push(Err(x));
                assert(result_picks(*selection, its, k + 1) =~= before + seq![k as int]);
            },
            Ok(frame) => {
                let time = frame.time as u128;
                let next: Option<u128> = if rest.len() > 0 {
                    match &rest[rest.len() - 1] {
                        Ok(f) => Some(f.time as u128),
                        Err(_) => None,
                    }
                } else {
                    None
                };
                assert(next == peeked_time(its, k as int));
                let selected = selection.is_selected(frame.number, time, prev, next);
                done = selection.done(frame.number, time, next);
                prev = Some(time);
                if selected {
                    out.push(Ok(frame));
                }
                assert(result_picks(*selection, its, k + 1) =~= before + if selected {
                    seq![k as int]
                } else {
                    seq![]
                });
            },
        }
        k = k + 1;
        if done {
            proof {
                assert(result_done_at(*selection, its, k - 1));
                assert(result_stopped(*selection, its, k as int));
                lemma_result_picks_after_stop(*selection, its, k as int, n as int);
            }
            return out;
        }
        assert(!result_stopped(*selection, its, k as int)) by {
            if result_stopped(*selection, its, k as int) {
                let j = choose|j: int| 0 <= j < k && #[trigger] result_done_at(*selection, its, j);
                assert(j == k - 1 || result_stopped(*selection, its, k - 1));
            }
        }
    }
    out
}

/// Without read errors, selecting among results takes the frames that
/// `select` takes.
pub proof fn lemma_results_without_errors<E>(
    sel: Selection,
    fs: Seq<Frame>,
    its: Seq<Result<Frame, E>>,
    k: int,
)
    requires
        its.len() == fs.len(),
        forall|i: int| 0 <= i < its.len() ==> its[i] == Ok::<Frame, E>(#[trigger] fs[i]),
        0 <= k <= fs.len(),
    ensures
        result_picks(sel, its, k) == picks(sel, fs, k),
    decreases k,
{
    if k > 0 {
        lemma_results_without_errors(sel, fs, its, k - 1);
        let i = k - 1;
        assert(its[i] == Ok::<Frame, E>(fs[i]));
        if i > 0 {
            assert(its[i - 1] == Ok::<Frame, E>(fs[i - 1]));
        }
        if i + 1 < its.len() {
            assert(its[i + 1] == Ok::<Frame, E>(fs[i + 1]));
        }
        assert(frame_time_before(its, i) == prev_time(fs, i));
        assert(peeked_time(its, i) == next_time(fs, i));
        assert(result_stopped(sel, its, i) == stopped(sel, fs, i)) by {
            if result_stopped(sel, its, i) {
                let j = choose|j: int| 0 <= j < i && #[trigger] result_done_at(sel, its, j);
                assert(its[j] == Ok::<Frame, E>(fs[j]));
                if j + 1 < its.len() {
                    assert(its[j + 1] == Ok::<Frame, E>(fs[j + 1]));
                }
                assert(done_at(sel, fs, j));
            }
            if stopped(sel, fs, i) {
                let j = choose|j: int| 0 <= j < i && #[trigger] done_at(sel, fs, j);
                assert(its[j] == Ok::<Frame, E>(fs[j]));
                if j + 1 < its.len() {
                    assert(its[j + 1] == Ok::<Frame, E>(fs[j + 1]));
                }
                assert(result_done_at(sel, its, j));
            }
        }
    }
}

/// Once a frame has ended the selection, no later frame is taken.
pub proof fn lemma_picks_after_stop(sel: Selection, fs: Seq<Frame>, k: int, n: int)
    requires
        0 <= k <= n,
        stopped(sel, fs, k),
    ensures
        picks(sel, fs, n) == picks(sel, fs, k),
    decreases n - k,
{
    if n > k {
        lemma_picks_after_stop(sel, fs, k, n - 1);
        let j = choose|j: int| 0 <= j < k && #[trigger] done_at(sel, fs, j);
        assert(stopped(sel, fs, n - 1));
        assert(picks(sel, fs, n) =~= picks(sel, fs, n - 1));
    }
}

/// Whether the frame at position `i` is selected, with its neighbours'
/// times.
pub open spec fn selected_at(sel: Selection, fs: Seq<Frame>, i: int) -> bool {
    spec_is_selected(sel, fs[i].number, fs[i].time as u128, prev_time(fs, i), next_time(fs, i))
}

/// The positions of all selected frames among the first `k`.
pub open spec fn all_picks(sel: Selection, fs: Seq<Frame>, k: int) -> Seq<int>
    decreases k,
{
    if k <= 0 {
        seq![]
    } else {
        all_picks(sel, fs, k - 1) + if selected_at(sel, fs, k - 1) {
            seq![k - 1]
        } else {
            seq![]
        }
    }
}

/// Frames as `frames` makes them: numbers increasing, times never going
/// back.
pub open spec fn frames_ordered(fs: Seq<Frame>) -> bool {
    forall|i: int, j: int|
        0 <= i < j < fs.len() ==> #[trigger] fs[i].number < #[trigger] fs[j].number && fs[i].time
            <= fs[j].time
}

/// A selection as `Selection::new` makes it from valid selectors: its limits
/// are the largest frame-range end and the latest selector time, and each
/// time range starts no later than it ends.
pub open spec fn selection_wf(sel: Selection) -> bool {
    &&& sel.max_frame == max_end(sel.frame_ranges@)
    &&& sel.max_time == max_sel_time(sel.times@)
    &&& forall|i: int|
        0 <= i < sel.times@.len() ==> (#[trigger] sel.times@[i] matches TimeSel::Range(a, b) ==> a
            <= b)
}

proof fn lemma_max_end_bounds(ranges: Seq<(usize, usize)>, i: int)
    requires
        0 <= i < ranges.len(),
    ensures
        ranges[i].1 <= max_end(ranges),
    decreases ranges.len(),
{
    if i < ranges.len() - 1 {
        lemma_max_end_bounds(ranges.drop_last(), i);
        assert(ranges.drop_last()[i] == ranges[i]);
    }
}

proof fn lemma_max_sel_time_bounds(times: Seq<TimeSel>, i: int)
    requires
        0 <= i < times.len(),
    ensures
        max_sel_time(times) matches Some(m) && sel_end(times[i]) <= m,
    decreases times.len(),
{
    if i < times.len() - 1 {
        lemma_max_sel_time_bounds(times.drop_last(), i);
        assert(times.drop_last()[i] == times[i]);
    }
}

/// Two frames of an ordered list compare by number and time as they stand.
proof fn lemma_frames_ordered_at(fs: Seq<Frame>, a: int, b: int)
    requires
        frames_ordered(fs),
        0 <= a < b < fs.len(),
    ensures
        fs[a].number < fs[b].number,
        fs[a].time <= fs[b].time,
{
    assert(fs[a].number < fs[b].number && fs[a].time <= fs[b].time);
}

/// After a frame where replay may stop, no later frame is selected.
proof fn lemma_nothing_after_done(sel: Selection, fs: Seq<Frame>, j: int, i: int)
    requires
        frames_ordered(fs),
        selection_wf(sel),
        0 <= j < i < fs.len(),
        spec_done(sel, fs[j].number, fs[j].time as u128, next_time(fs, j)),
    ensures
        !selected_at(sel, fs, i),
{
    lemma_frames_ordered_at(fs, j, i);
    assert forall|r: int| 0 <= r < sel.frame_ranges@.len() implies !((
    #[trigger] sel.frame_ranges@[r]).0 <= fs[i].number <= sel.frame_ranges@[r].1) by {
        lemma_max_end_bounds(sel.frame_ranges@, r);
    }
    assert(fs[j + 1].time <= fs[i].time) by {
        if j + 1 < i {
            lemma_frames_ordered_at(fs, j + 1, i);
        }
    }
    assert(fs[j].time <= fs[i - 1].time) by {
        if j < i - 1 {
            lemma_frames_ordered_at(fs, j, i - 1);
        }
    }
    assert forall|s: int| 0 <= s < sel.times@.len() implies !time_selects(
        #[trigger] sel.times@[s],
        fs[i].time as u128,
        prev_time(fs, i),
        next_time(fs, i),
    ) by {
        lemma_max_sel_time_bounds(sel.times@, s);
    }
}

proof fn lemma_times_chain(sf: Seq<(u64, FrameDesc)>, i: int, j: int)
    requires
        0 <= i <= j < sf.len(),
        forall|k: int| 0 < k < sf.len() ==> sf[k - 1].0 <= #[trigger] sf[k].0,
    ensures
        sf[i].0 <= sf[j].0,
    decreases j - i,
{
    if i < j {
        lemma_times_chain(sf, i, j - 1);
    }
}

/// Frames as `frames` makes them are ordered: numbered upwards, with times
/// that never go back, as `select` expects them.
pub proof fn lemma_made_frames_ordered(
    out: Seq<Frame>,
    events: Seq<Event>,
    screens: Seq<Seq<Seq<CellInfo>>>,
    initial: Seq<Seq<CellInfo>>,
)
    requires
        frames_match(out, spec_frames(events), screens, initial),
    ensures
        frames_ordered(out),
{
    let sf = spec_frames(events);
    lemma_frames_bounded(80, 24, events);
    assert forall|i: int, j: int| 0 <= i < j < out.len() implies #[trigger] out[i].number
        < #[trigger] out[j].number && out[i].time <= out[j].time by {
        assert(frame_ok(out, i, sf, screens, initial));
        assert(frame_ok(out, j, sf, screens, initial));
        lemma_times_chain(sf, i, j);
    }
}

/// A point in time selects the frame shown at that time: among frames in
/// order, a frame is selected exactly when it is at or before the point and
/// every later frame is after it.
pub proof fn lemma_point_selects_frame_shown(sel: Selection, fs: Seq<Frame>, p: u128, i: int)
    requires
        frames_ordered(fs),
        sel.frame_ranges@.len() == 0,
        sel.times@ == seq![TimeSel::Point(p)],
        0 <= i < fs.len(),
    ensures
        selected_at(sel, fs, i) <==> (fs[i].time as u128 <= p && forall|j: int|
            i < j < fs.len() ==> (#[trigger] fs[j].time) as u128 > p),
{
    if selected_at(sel, fs, i) {
        let k = choose|k: int|
            0 <= k < sel.times@.len() && time_selects(
                #[trigger] sel.times@[k],
                fs[i].time as u128,
                prev_time(fs, i),
                next_time(fs, i),
            );
        assert(k == 0);
        assert forall|j: int| i < j < fs.len() implies (#[trigger] fs[j].time) as u128 > p by {
            if j > i + 1 {
                lemma_frames_ordered_at(fs, i + 1, j);
            }
        }
    }
    if fs[i].time as u128 <= p && forall|j: int|
        i < j < fs.len() ==> (#[trigger] fs[j].time) as u128 > p {
        if i + 1 < fs.len() {
            assert(fs[i + 1].time as u128 > p);
        }
        assert(time_selects(sel.times@[0], fs[i].time as u128, prev_time(fs, i), next_time(fs, i)));
    }
}

/// A frame range selects the frames whose numbers lie in it, whatever their
/// times.
pub proof fn lemma_range_selects_numbers(sel: Selection, fs: Seq<Frame>, a: usize, b: usize, i: int)
    requires
        sel.frame_ranges@ == seq![(a, b)],
        sel.times@.len() == 0,
        0 <= i < fs.len(),
    ensures
        selected_at(sel, fs, i) <==> a <= fs[i].number <= b,
{
    if a <= fs[i].number <= b {
        assert(sel.frame_ranges@[0] == (a, b));
    }
}

/// Stopping early never drops a frame: over frames as `frames` makes them
/// and a selection as `Selection::new` makes it, the frames taken are all
/// the selected frames, in order.
pub proof fn lemma_select_takes_all_selected(sel: Selection, fs: Seq<Frame>, k: int)
    requires
        frames_ordered(fs),
        selection_wf(sel),
        0 <= k <= fs.len(),
    ensures
        picks(sel, fs, k) == all_picks(sel, fs, k),
    decreases k,
{
    if k > 0 {
        lemma_select_takes_all_selected(sel, fs, k - 1);
        if stopped(sel, fs, k - 1) {
            let j = choose|j: int| 0 <= j < k - 1 && #[trigger] done_at(sel, fs, j);
            lemma_nothing_after_done(sel, fs, j, k - 1);
        }
    }
}

/// The annotation of a frame's header line.
pub open spec fn annotation(kind: FrameKind) -> Seq<char> {
    match kind {
        FrameKind::Output => seq![],
        FrameKind::Resize(c, r) => " (resize: "@ + spec_decimal(c as nat) + seq!['x'] + spec_decimal(
            r as nat,
        ) + seq![')'],
        FrameKind::Marker(l) => " (marker: "@ + spec_escape_controls(l@) + seq![')'],
    }
}

/// The line printed before a frame's screen: its number, its time in
/// seconds and, for a resize or a marker, the new size or the escaped label.
pub open spec fn spec_header_line(f: Frame) -> Seq<char> {
    "--- frame "@ + spec_decimal(f.number as nat) + " @ "@ + spec_fixed6(f.time) + annotation(f.kind)
        + " ---"@
}

/// The line printed before a frame's screen.
pub fn header_line(frame: &Frame) -> (s: String)
    ensures
        s@ == spec_header_line(*frame),
{
    let mut out = chars_of("--- frame ");
    push_decimal(&mut out, frame.number as u64);
    append_str(&mut out, " @ ");
    push_fixed6(&mut out, frame.time);
    let ghost before = out@;
    match &frame.kind {
        FrameKind::Output => {},
        FrameKind::Resize(c, r) => {
            append_str(&mut out, " (resize: ");
            push_decimal(&mut out, *c as u64);
            out.push('x');
            push_decimal(&mut out, *r as u64);
            out.push(')');
        },
        FrameKind::Marker(l) => {
            append_str(&mut out, " (marker: ");
            let e = escape_controls(l.as_str());
            append_str(&mut out, e.as_str());
            out.push(')');
        },
    }
    assert(out@ =~= before + annotation(frame.kind));
    append_str(&mut out, " ---");
    assert(out@ =~= spec_header_line(*frame));
    string_from_chars(out.as_slice())
}

/// `lines` without its trailing empty lines.
pub open spec fn drop_blank_tail(lines: Seq<Seq<char>>) -> Seq<Seq<char>>
    decreases lines.len(),
{
    if lines.len() > 0 && lines.last().len() == 0 {
        drop_blank_tail(lines.drop_last())
    } else {
        lines
    }
}

/// Each line followed by a line break.
pub open spec fn line_block(lines: Seq<Seq<char>>) -> Seq<char>
    decreases lines.len(),
{
    if lines.len() == 0 {
        seq![]
    } else {
        line_block(lines.drop_last()) + lines.last() + seq!['\n']
    }
}

/// A frame as printed: its header line, then its screen lines (with escape
/// sequences or as plain text) without the empty lines at the bottom.
pub open spec fn spec_frame_block(f: Frame, escapes: bool) -> Seq<char> {
    let lines = if escapes {
        Seq::new(f.screen.lines@.len(), |i: int| crate::frames::spec_seq_line(f.screen.lines@[i]@))
    } else {
        Seq::new(f.screen.lines@.len(), |i: int| crate::frames::spec_text_line(f.screen.lines@[i]@))
    };
    spec_header_line(f) + seq!['\n'] + line_block(drop_blank_tail(lines))
}

/// The frames as printed, one after the other.
pub open spec fn spec_terminal_text(fs: Seq<Frame>, escapes: bool) -> Seq<char>
    decreases fs.len(),
{
    if fs.len() == 0 {
        seq![]
    } else {
        spec_terminal_text(fs.drop_last(), escapes) + spec_frame_block(fs.last(), escapes)
    }
}

/// Prints frames as screen snapshots, each after its header line; gives
/// the text and the number of frames printed.
pub fn write_terminal(frames: &Vec<Frame>, escapes: bool) -> (r: (String, usize))
    ensures
        r.0@ == spec_terminal_text(frames@, escapes),
        r.1 == frames@.len(),
{
    let mut out: Vec<char> = Vec::new();
    let mut count: usize = 0;
    while count < frames.len()
        invariant
            count <= frames@.len(),
            out@ == spec_terminal_text(frames@.take(count as int), escapes),
        decreases frames@.len() - count,
    {
        assert(frames@.take(count + 1).drop_last() =~= frames@.take(count as int));
        let frame = &frames[count];
        let ghost before = out@;
        let h = header_line(frame);
        append_str(&mut out, h.as_str());
        out.push('\n');
        let mut lines = if escapes {
            frame.screen.seq_lines()
        } else {
            frame.screen.text_lines()
        };
        let ghost all = if escapes {
            Seq::new(frame.screen.lines@.len(), |i: int| crate::frames::spec_seq_line(frame.screen.lines@[i]@))
        } else {
            Seq::new(frame.screen.lines@.len(), |i: int| crate::frames::spec_text_line(frame.screen.lines@[i]@))
        };
        assert(lines@.map_values(|l: String| l@) =~= all);
        while lines.len() > 0 && lines[lines.len() - 1].as_str().is_empty()
            invariant
                drop_blank_tail(lines@.map_values(|l: String| l@)) == drop_blank_tail(all),
            decreases lines@.len(),
        {
            let ghost prev = lines@.map_values(|l: String| l@);
            lines.pop();
            assert(lines@.map_values(|l: String| l@) =~= prev.drop_last());
        }
        let ghost kept = lines@.map_values(|l: String| l@);
        assert(drop_blank_tail(kept) == kept);
        let ghost mid = out@;
        let mut i: usize = 0;
        while i < lines.len()
            invariant
                i <= lines@.len(),
                kept == lines@.map_values(|l: String| l@),
                out@ == mid + line_block(kept.take(i as int)),
            decreases lines@.len() - i,
        {
            assert(kept.take(i + 1).drop_last() =~= kept.take(i as int));
            append_str(&mut out, lines[i].as_str());
            out.push('\n');
            i = i + 1;
            assert(out@ =~= mid + line_block(kept.take(i as int)));
        }
        assert(kept.take(i as int) =~= kept);
        assert(out@ =~= before + spec_frame_block(frames@[count as int], escapes));
        count = count + 1;
    }
    assert(frames@.take(count as int) =~= frames@);
    (string_from_chars(out.as_slice()), count)
}

} // verus!

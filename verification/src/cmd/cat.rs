//! Concatenation of recordings: the events of each recording follow those
//! of the one before, shifted in time to start where it ended, with a
//! resize event where the terminal size changes between them.
use vstd::prelude::*;
use crate::asciicast::{Event, EventData, Header, Version};
use crate::util::reversed;

verus! {

/// The events shifted later by `offset` microseconds.
pub open spec fn shifted(events: Seq<Event>, offset: int) -> Seq<Event> {
    events.map_values(|e: Event| Event { time: (offset + e.time) as u64, data: e.data })
}

/// The time the events end at when shifted by `offset`: that of the last
/// event, or `offset` when there is none.
pub open spec fn end_time(events: Seq<Event>, offset: int) -> int {
    if events.len() == 0 {
        offset
    } else {
        offset + events.last().time
    }
}

/// The terminal size after the events, starting from `size`: that of the
/// last resize event, if any.
pub open spec fn size_after(events: Seq<Event>, size: (u16, u16)) -> (u16, u16)
    decreases events.len(),
{
    if events.len() == 0 {
        size
    } else {
        match events.last().data {
            EventData::Resize(c, r) => (c, r),
            _ => size_after(events.drop_last(), size),
        }
    }
}

/// The concatenation of the first `n` recordings: the events written after
/// the first header, the time the next recording starts at, and the
/// terminal size at the end.
pub open spec fn cat_prefix(casts: Seq<(Header, Vec<Event>)>, n: int) -> (
    Seq<Event>,
    int,
    (u16, u16),
)
    decreases n,
{
    if n <= 0 {
        (Seq::empty(), 0, (0, 0))
    } else {
        let (out, off, size) = cat_prefix(casts, n - 1);
        let h = casts[n - 1].0;
        let evs = casts[n - 1].1@;
        let hs = (h.term_cols, h.term_rows);
        let resize = if n > 1 && hs != size {
            seq![Event { time: off as u64, data: EventData::Resize(hs.0, hs.1) }]
        } else {
            Seq::empty()
        };
        (out + resize + shifted(evs, off), end_time(evs, off), size_after(evs, hs))
    }
}

/// Whether every shifted time fits in 64 bits.
pub open spec fn cat_fits(casts: Seq<(Header, Vec<Event>)>) -> bool {
    forall|n: int, j: int|
        0 <= n < casts.len() && 0 <= j < casts[n].1@.len() ==> cat_prefix(casts, n).1
            + (#[trigger] casts[n].1@[j]).time <= u64::MAX
}

proof fn lemma_cat_offset_nonneg(casts: Seq<(Header, Vec<Event>)>, n: int)
    requires
        0 <= n <= casts.len(),
    ensures
        cat_prefix(casts, n).1 >= 0,
    decreases n,
{
    if n > 0 {
        lemma_cat_offset_nonneg(casts, n - 1);
    }
}

/// The events written after the first recording's header: each
/// recording's events shifted to start where the previous recording ended
/// (the time of its last event), preceded, from the second recording on,
/// by a resize event when its terminal size differs from the size the
/// previous recording ended with.
pub fn cat_events(casts: Vec<(Header, Vec<Event>)>) -> (r: Vec<Event>)
    requires
        cat_fits(casts@),
    ensures
        r@ == cat_prefix(casts@, casts@.len() as int).0,
{
    let ghost orig = casts@;
    let n = casts.len();
    let mut rev = reversed(casts);
    let mut out: Vec<Event> = Vec::new();
    let mut offset: u64 = 0;
    let mut cols: u16 = 0;
    let mut rows: u16 = 0;
    let mut i: usize = 0;
    while rev.len() > 0
        invariant
            n == orig.len(),
            cat_fits(orig),
            i + rev@.len() == n,
            forall|j: int| 0 <= j < rev@.len() ==> rev@[j] == orig[n - 1 - j],
            out@ == cat_prefix(orig, i as int).0,
            offset == cat_prefix(orig, i as int).1,
            (cols, rows) == cat_prefix(orig, i as int).2,
        decreases rev@.len(),
    {
        let (h, events) = rev.pop().unwrap();
        assert((h, events) == orig[i as int]);
        let ghost evs = events@;
        let ghost base = out@;
        let ghost off = offset as int;
        let hs = (h.term_cols, h.term_rows);
        if i > 0 && (h.term_cols != cols || h.term_rows != rows) {
            out.push(Event::resize(offset, hs));
        }
        let ghost with_resize = out@;
        cols = h.term_cols;
        rows = h.term_rows;
        let mut time = offset;
        let mut erev = reversed(events);
        let total = erev.len();
        let mut j: usize = 0;
        while erev.len() > 0
            invariant
                n == orig.len(),
                i < n,
                evs == orig[i as int].1@,
                cat_fits(orig),
                off == cat_prefix(orig, i as int).1,
                offset as int == off,
                total == evs.len(),
                j + erev@.len() == evs.len(),
                forall|k: int| 0 <= k < erev@.len() ==> erev@[k] == evs[evs.len() - 1 - k],
                out@ == with_resize + shifted(evs.take(j as int), off),
                time == end_time(evs.take(j as int), off),
                (cols, rows) == size_after(evs.take(j as int), hs),
            decreases erev@.len(),
        {
            let e = erev.pop().unwrap();
            assert(e == evs[j as int]);
            assert(orig[i as int].1@[j as int] == e);
            time = offset + e.time;
            match e.data {
                EventData::Resize(c, r) => {
                    cols = c;
                    rows = r;
                },
                _ => {},
            }
            out.push(Event { time, data: e.data });
            proof {
                let t = evs.take(j + 1);
                assert(t.drop_last() =~= evs.take(j as int));
                assert(t.last() == e);
                assert(shifted(t, off) =~= shifted(evs.take(j as int), off).push(
                    Event { time: (off + e.time) as u64, data: e.data },
                ));
            }
            j = j + 1;
        }
        proof {
            assert(evs.take(j as int) =~= evs);
            assert(out@ =~= base + (with_resize.skip(base.len() as int)) + shifted(evs, off));
        }
        offset = time;
        i = i + 1;
    }
    out
}

/// The error that stops concatenation of recordings of this version, if
/// any: there is no encoder for version 1.
pub fn cat_error(version: Version) -> (r: Option<String>)
    ensures
        version == Version::One ==> (r matches Some(m) && m@
            == "asciicast v1 files can't be concatenated"@),
        version != Version::One ==> r is None,
{
    match version {
        Version::One => Some("asciicast v1 files can't be concatenated".to_string()),
        _ => None,
    }
}

} // verus!

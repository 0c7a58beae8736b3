//! The player's virtual terminal. It follows the recording so that a seek
//! can redraw the screen as it stood at the target event. What the terminal
//! was given since it was made (its size then, and each text and resize
//! since) is kept as its view, so the contracts can say what a seek leaves
//! behind.
use vstd::prelude::*;
use crate::asciicast::{Event, EventData};
use crate::frames::{fresh, Vt, VtInput};
use crate::player::SeekPlan;
use crate::text::{append_str, string_from_chars};

verus! {

/// The scrollback the player's terminal keeps, in lines.
pub const PLAYER_SCROLLBACK: usize = 1000;

/// What an event gives the terminal: output is interpreted, and a resize
/// changes its size when the player follows the recording's resizes.
/// Input, markers and the rest give it nothing.
pub open spec fn event_inputs(e: Event, auto_resize: bool) -> Seq<VtInput> {
    match e.data {
        EventData::Output(d) => seq![VtInput::Text(d@)],
        EventData::Resize(c, r) => if auto_resize {
            seq![VtInput::Size(c as usize, r as usize)]
        } else {
            Seq::empty()
        },
        _ => Seq::empty(),
    }
}

/// What the events from index `a` up to (not including) `b` give the
/// terminal, in order.
pub open spec fn events_inputs(events: Seq<Event>, a: int, b: int, auto_resize: bool) -> Seq<
    VtInput,
>
    decreases b - a,
{
    if b <= a {
        Seq::empty()
    } else {
        events_inputs(events, a, b - 1, auto_resize) + event_inputs(events[b - 1], auto_resize)
    }
}

/// A dimension as avt keeps it: at least 1.
pub open spec fn at_least_one(n: usize) -> usize {
    if n == 0 {
        1
    } else {
        n
    }
}

/// The size of a terminal made with `initial` after the inputs: that of the
/// last resize, or the initial one.
pub open spec fn size_after(initial: (usize, usize), inputs: Seq<VtInput>) -> (usize, usize)
    decreases inputs.len(),
{
    if inputs.len() == 0 {
        initial
    } else {
        match inputs.last() {
            VtInput::Size(c, r) => (at_least_one(c), at_least_one(r)),
            VtInput::Text(_) => size_after(initial, inputs.drop_last()),
        }
    }
}

/// The escape sequences that draw, on a terminal of the same size, the
/// visible state of a terminal made and given what the view records (what
/// avt's `Terminal::dump` returns for it).
pub uninterp spec fn vt_dump_of(v: (usize, usize, Option<usize>, Seq<VtInput>)) -> Seq<char>;

/// What a terminal given `inputs` has been given after a seek plan over
/// `events` is carried out: a rebuilt terminal has been given the events
/// before the target, one that goes forward the events in between as well.
pub open spec fn after_seek(
    inputs: Seq<VtInput>,
    events: Seq<Event>,
    plan: SeekPlan,
    auto_resize: bool,
) -> Seq<VtInput> {
    match plan {
        SeekPlan::Unchanged => inputs,
        SeekPlan::Rebuild(t) => events_inputs(events, 0, t as int, auto_resize),
        SeekPlan::Forward(a, b) => inputs + events_inputs(events, a as int, b as int, auto_resize),
    }
}

/// Whether a plan stays within the events.
pub open spec fn plan_fits(plan: SeekPlan, n: nat) -> bool {
    match plan {
        SeekPlan::Unchanged => true,
        SeekPlan::Rebuild(t) => t <= n,
        SeekPlan::Forward(a, b) => a <= b && b <= n,
    }
}

/// The events from `a` to `b` give what those from `a` to `m` give, then
/// those from `m` to `b`.
pub proof fn lemma_events_inputs_split(events: Seq<Event>, a: int, m: int, b: int, auto_resize: bool)
    requires
        a <= m <= b,
    ensures
        events_inputs(events, a, b, auto_resize) =~= events_inputs(events, a, m, auto_resize)
            + events_inputs(events, m, b, auto_resize),
    decreases b - m,
{
    if b > m {
        lemma_events_inputs_split(events, a, m, b - 1, auto_resize);
    } else {
        assert(events_inputs(events, m, b, auto_resize) =~= Seq::<VtInput>::empty());
    }
}

/// Seeking shows what playing shows: a terminal that has been given the
/// events before `next`, once the plan from `next` to `target` is carried
/// out, has been given exactly the events before `target`, as if it had
/// played them from the start.
pub proof fn lemma_seek_shows_target(events: Seq<Event>, next: usize, target: usize, auto_resize: bool)
    requires
        next <= events.len(),
        target <= events.len(),
    ensures
        plan_fits(crate::player::spec_seek_plan(next, target), events.len()),
        after_seek(
            events_inputs(events, 0, next as int, auto_resize),
            events,
            crate::player::spec_seek_plan(next, target),
            auto_resize,
        ) == events_inputs(events, 0, target as int, auto_resize),
{
    if target > next {
        lemma_events_inputs_split(events, 0, next as int, target as int, auto_resize);
    }
}

/// What showing an event does on the real terminal.
#[derive(Debug, Clone, Copy, PartialEq, Eq, Structural)]
pub enum Shown {
    /// Nothing.
    Nothing,
    /// The event's output is written.
    Output,
    /// The terminal is resized: columns, rows.
    Resize(usize, usize),
}

/// What showing `e` does on the real terminal.
pub open spec fn spec_shown(e: Event, auto_resize: bool) -> Shown {
    match e.data {
        EventData::Output(_) => Shown::Output,
        EventData::Resize(c, r) => if auto_resize {
            Shown::Resize(c as usize, r as usize)
        } else {
            Shown::Nothing
        },
        _ => Shown::Nothing,
    }
}

/// What a seek writes to the real terminal: its new size, when the player
/// follows the recording's resizes, then the text that redraws it.
pub struct Redraw {
    pub size: Option<(usize, usize)>,
    pub text: String,
}

/// `ESC c`: reset the terminal before the redraw.
pub open spec fn redraw_prefix() -> Seq<char> {
    seq!['\u{1b}', 'c']
}

/// The player's virtual terminal.
pub struct PlayerVt {
    vt: Vt,
    initial: (usize, usize),
    size: (usize, usize),
    auto_resize: bool,
}

impl View for PlayerVt {
    /// The terminal's view: the size it was made with, its scrollback
    /// limit, and what it was given since.
    type V = (usize, usize, Option<usize>, Seq<VtInput>);

    closed spec fn view(&self) -> (usize, usize, Option<usize>, Seq<VtInput>) {
        self.vt@
    }
}

/// The text that redraws the terminal; wraps avt's `Terminal::dump`, which
/// reads the terminal's state alone.
#[verifier::external_body]
pub(crate) fn vt_dump(vt: &Vt) -> (s: String)
    ensures
        s@ == vt_dump_of(vt@),
{
    vt.term.dump()
}

impl PlayerVt {
    /// The size the terminal was made with.
    pub closed spec fn initial(&self) -> (usize, usize) {
        self.initial
    }

    /// Whether the terminal follows the recording's resizes.
    pub closed spec fn auto_resize(&self) -> bool {
        self.auto_resize
    }

    /// The terminal was made with the initial size and keeps
    /// `PLAYER_SCROLLBACK` lines; its size follows from what it was given.
    pub closed spec fn wf(&self) -> bool {
        &&& self.initial.0 >= 1
        &&& self.initial.1 >= 1
        &&& self.vt@.0 == self.initial.0
        &&& self.vt@.1 == self.initial.1
        &&& self.vt@.2 == Some(PLAYER_SCROLLBACK)
        &&& self.size == size_after(self.initial, self.vt@.3)
    }

    /// A terminal of `cols` by `rows` that has been given nothing, keeping
    /// `PLAYER_SCROLLBACK` lines of scrollback.
    pub fn new(cols: usize, rows: usize, auto_resize: bool) -> (vt: Self)
        requires
            cols >= 1,
            rows >= 1,
        ensures
            vt.wf(),
            vt@ == fresh(cols, rows, Some(PLAYER_SCROLLBACK)),
            vt.initial() == (cols, rows),
            vt.auto_resize() == auto_resize,
    {
        PlayerVt {
            vt: Vt::new(cols, rows, Some(PLAYER_SCROLLBACK)),
            initial: (cols, rows),
            size: (cols, rows),
            auto_resize,
        }
    }

    /// The terminal's size now: columns, rows.
    pub fn size(&self) -> (r: (usize, usize))
        requires
            self.wf(),
        ensures
            r == size_after(self.initial(), self@.3),
    {
        self.size
    }

    /// Gives the terminal an event: output is interpreted, a resize changes
    /// the size when the terminal follows the recording's resizes. Returns
    /// what showing the event does on the real terminal.
    pub fn apply(&mut self, event: &Event) -> (r: Shown)
        requires
            old(self).wf(),
        ensures
            final(self).wf(),
            final(self)@ == (
                old(self)@.0,
                old(self)@.1,
                old(self)@.2,
                old(self)@.3 + event_inputs(*event, old(self).auto_resize()),
            ),
            final(self).initial() == old(self).initial(),
            final(self).auto_resize() == old(self).auto_resize(),
            r == spec_shown(*event, old(self).auto_resize()),
    {
        match &event.data {
            EventData::Output(data) => {
                self.vt.feed(data.as_str());
                proof {
                    assert(self.vt@.3.drop_last() =~= old(self).vt@.3);
                    assert(old(self).vt@.3 + seq![VtInput::Text(data@)] =~= self.vt@.3);
                }
                Shown::Output
            },
            EventData::Resize(cols, rows) => {
                if self.auto_resize {
                    let c = *cols as usize;
                    let r = *rows as usize;
                    self.vt.resize(c, r);
                    let c1 = if c == 0 {
                        1
                    } else {
                        c
                    };
                    let r1 = if r == 0 {
                        1
                    } else {
                        r
                    };
                    self.size = (c1, r1);
                    proof {
                        assert(old(self).vt@.3 + seq![VtInput::Size(c, r)] =~= self.vt@.3);
                    }
                    Shown::Resize(c, r)
                } else {
                    assert(old(self).vt@.3 + Seq::<VtInput>::empty() =~= self.vt@.3);
                    Shown::Nothing
                }
            },
            _ => {
                assert(old(self).vt@.3 + Seq::<VtInput>::empty() =~= self.vt@.3);
                Shown::Nothing
            },
        }
    }

    /// Carries out a seek plan over `events`: a rebuilt terminal is given
    /// the events before the target, otherwise the events in between are
    /// given to it. Returns what to write to the real terminal: its new
    /// size when the terminal follows the recording's resizes, then the
    /// reset and the text that redraws it; `None` when the plan changes
    /// nothing.
    pub fn seek(&mut self, events: &Vec<Event>, plan: SeekPlan) -> (r: Option<Redraw>)
        requires
            old(self).wf(),
            plan_fits(plan, events@.len()),
        ensures
            final(self).wf(),
            final(self).initial() == old(self).initial(),
            final(self).auto_resize() == old(self).auto_resize(),
            final(self)@ == (
                old(self)@.0,
                old(self)@.1,
                old(self)@.2,
                after_seek(old(self)@.3, events@, plan, old(self).auto_resize()),
            ),
            r is None <==> plan is Unchanged,
            r matches Some(d) ==> {
                &&& d.text@ == redraw_prefix() + vt_dump_of(final(self)@)
                &&& d.size == if old(self).auto_resize() {
                    Some(size_after(old(self).initial(), final(self)@.3))
                } else {
                    None
                }
            },
    {
        let ghost auto = self.auto_resize;
        match plan {
            SeekPlan::Unchanged => {
                return None;
            },
            SeekPlan::Rebuild(target) => {
                self.vt = Vt::new(self.initial.0, self.initial.1, Some(PLAYER_SCROLLBACK));
                self.size = self.initial;
                let mut i: usize = 0;
                while i < target
                    invariant
                        self.wf(),
                        i <= target <= events@.len(),
                        self.initial == old(self).initial,
                        self.auto_resize == auto,
                        self.vt@.3 == events_inputs(events@, 0, i as int, auto),
                    decreases target - i,
                {
                    self.apply(&events[i]);
                    i = i + 1;
                }
            },
            SeekPlan::Forward(from, target) => {
                let mut i: usize = from;
                assert(old(self).vt@.3 + events_inputs(events@, from as int, from as int, auto)
                    =~= old(self).vt@.3);
                while i < target
                    invariant
                        self.wf(),
                        from <= i <= target <= events@.len(),
                        self.initial == old(self).initial,
                        self.auto_resize == auto,
                        self.vt@.3 == old(self).vt@.3 + events_inputs(
                            events@,
                            from as int,
                            i as int,
                            auto,
                        ),
                    decreases target - i,
                {
                    self.apply(&events[i]);
                    proof {
                        assert(self.vt@.3 =~= old(self).vt@.3 + events_inputs(
                            events@,
                            from as int,
                            i + 1,
                            auto,
                        ));
                    }
                    i = i + 1;
                }
            },
        }
        let size = if self.auto_resize {
            Some(self.size)
        } else {
            None
        };
        let dump = vt_dump(&self.vt);
        let mut out: Vec<char> = Vec::new();
        out.push('\u{1b}');
        out.push('c');
        append_str(&mut out, dump.as_str());
        let text = string_from_chars(out.as_slice());
        Some(Redraw { size, text })
    }
}

} // verus!

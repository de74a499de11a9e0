//! Watching one dictated insertion for the user's corrections.
//!
//! The watch is a state machine: the caller takes snapshots of the focused
//! text field, records edits, reads the clock and sleeps as the machine asks,
//! and hands back what happened. Times are milliseconds on a monotonic clock.
use vstd::prelude::*;
use crate::anchor::{Anchor, anchor_of, middle_of};
use crate::text::{is_blank, literal, trimmed};

verus! {

/// Snapshot attempts made to find the dictated text before giving up.
pub const LOCATE_ATTEMPTS: u32 = 3;

/// Pause between two attempts to find the dictated text.
pub const LOCATE_RETRY_MS: u64 = 200;

/// Pause between two snapshots while watching.
pub const POLL_MS: u64 = 500;

/// How long an edit must stay unchanged before it is recorded.
pub const STABLE_MS: u64 = 1200;

/// How long a dictation is watched once found.
pub const WATCH_MS: u64 = 60000;

/// What the focused text field showed.
pub struct Snapshot {
    pub app: String,
    pub focus: Vec<i32>,
    pub text: String,
}

/// What happened since the machine last asked for something.
pub enum WatchEvent {
    /// A snapshot was taken at time `now`.
    Snapshot(Snapshot, u64),
    /// Taking a snapshot failed, for the reason given.
    Failed(String),
    /// A newer dictation or a cancellation replaced this watch.
    Cancelled,
    /// The requested edit record was written (`true`), or not, because the
    /// watch had been replaced in the meantime (`false`).
    Recorded(bool),
    /// The clock reads `now`.
    Clock(u64),
    /// The requested pause is over.
    Waited,
}

/// A status line for the watch's dictation, and the application it is in.
pub struct StatusUpdate {
    pub status: String,
    pub app: Option<String>,
}

/// What the machine asks for next.
pub enum Next {
    /// Wait `delay_ms`, then take a snapshot, of the field `focus` if given.
    Snapshot { delay_ms: u64, focus: Option<Vec<i32>> },
    /// Record that the dictation `before` in `app` now reads `after`.
    Record { app: String, before: String, after: String },
    /// Read the clock.
    Clock,
    /// Wait `delay_ms`, then report that the pause is over.
    Wait { delay_ms: u64 },
    /// The watch is over; end the observation of its session when `finalize`.
    Finish { finalize: bool },
}

/// The answer of the machine to an event: the status lines to show, in
/// order, and what to do next.
pub struct WatchStep {
    pub updates: Vec<StatusUpdate>,
    pub next: Next,
}

/// The event the machine asked for last.
#[derive(Clone, Copy, Debug, PartialEq, Eq, Structural)]
pub enum Awaiting {
    /// A snapshot (or its failure).
    Snapshot,
    /// The outcome of recording an edit.
    Record,
    /// The clock, to start the watch window at the time it reads.
    Start,
    /// The clock, to decide whether the watch window is still open.
    Clock,
    /// The end of the pause after the last locating attempt.
    Pause,
}

/// The found dictation and the edit being followed.
pub struct Located {
    pub anchor: Anchor,
    pub app: String,
    pub focus: Vec<i32>,
    pub started: u64,
    pub pending: String,
    pub reported: String,
    pub stable_since: u64,
}

/// The watch of one dictated insertion.
pub struct Watch {
    pub generation: u64,
    pub inserted: String,
    pub attempts: u32,
    pub located: Option<Located>,
    pub awaiting: Awaiting,
    pub done: bool,
    pub commit: bool,
}

/// The content of a [`Located`].
pub struct LocatedView {
    pub anchor: (Seq<char>, Seq<char>),
    pub app: Seq<char>,
    pub focus: Seq<i32>,
    pub started: u64,
    pub pending: Seq<char>,
    pub reported: Seq<char>,
    pub stable_since: u64,
}

/// The content of a [`Watch`].
pub struct WatchView {
    pub generation: u64,
    pub inserted: Seq<char>,
    pub attempts: u32,
    pub located: Option<LocatedView>,
    pub awaiting: Awaiting,
    pub done: bool,
    pub commit: bool,
}

/// The content of a [`WatchEvent`].
pub enum EventView {
    Snapshot { app: Seq<char>, focus: Seq<i32>, text: Seq<char>, now: u64 },
    Failed(Seq<char>),
    Cancelled,
    Recorded(bool),
    Clock(u64),
    Waited,
}

/// The content of a [`Next`].
pub enum NextView {
    Snapshot { delay_ms: u64, focus: Option<Seq<i32>> },
    Record { app: Seq<char>, before: Seq<char>, after: Seq<char> },
    Clock,
    Wait { delay_ms: u64 },
    Finish { finalize: bool },
}

/// The content of a [`WatchStep`].
pub struct StepView {
    pub updates: Seq<(Seq<char>, Option<Seq<char>>)>,
    pub next: NextView,
}

impl View for Located {
    type V = LocatedView;

    open spec fn view(&self) -> LocatedView {
        LocatedView {
            anchor: self.anchor@,
            app: self.app@,
            focus: self.focus@,
            started: self.started,
            pending: self.pending@,
            reported: self.reported@,
            stable_since: self.stable_since,
        }
    }
}

impl View for Watch {
    type V = WatchView;

    open spec fn view(&self) -> WatchView {
        WatchView {
            generation: self.generation,
            inserted: self.inserted@,
            attempts: self.attempts,
            located: match self.located {
                Some(l) => Some(l@),
                None => None,
            },
            awaiting: self.awaiting,
            done: self.done,
            commit: self.commit,
        }
    }
}

impl View for WatchEvent {
    type V = EventView;

    open spec fn view(&self) -> EventView {
        match self {
            WatchEvent::Snapshot(s, now) => EventView::Snapshot {
                app: s.app@,
                focus: s.focus@,
                text: s.text@,
                now: *now,
            },
            WatchEvent::Failed(e) => EventView::Failed(e@),
            WatchEvent::Cancelled => EventView::Cancelled,
            WatchEvent::Recorded(ok) => EventView::Recorded(*ok),
            WatchEvent::Clock(now) => EventView::Clock(*now),
            WatchEvent::Waited => EventView::Waited,
        }
    }
}

impl View for StatusUpdate {
    type V = (Seq<char>, Option<Seq<char>>);

    open spec fn view(&self) -> (Seq<char>, Option<Seq<char>>) {
        (
            self.status@,
            match self.app {
                Some(a) => Some(a@),
                None => None,
            },
        )
    }
}

/// The content of each status update.
pub open spec fn updates_view(updates: Seq<StatusUpdate>) -> Seq<(Seq<char>, Option<Seq<char>>)> {
    updates.map_values(|u: StatusUpdate| u@)
}

impl View for WatchStep {
    type V = StepView;

    open spec fn view(&self) -> StepView {
        StepView {
            updates: updates_view(self.updates@),
            next: match self.next {
                Next::Snapshot { delay_ms, focus } => NextView::Snapshot {
                    delay_ms,
                    focus: match focus {
                        Some(f) => Some(f@),
                        None => None,
                    },
                },
                Next::Record { app, before, after } => NextView::Record {
                    app: app@,
                    before: before@,
                    after: after@,
                },
                Next::Clock => NextView::Clock,
                Next::Wait { delay_ms } => NextView::Wait { delay_ms },
                Next::Finish { finalize } => NextView::Finish { finalize },
            },
        }
    }
}

/// Milliseconds from `from` to `to` (zero if `to` is earlier).
pub open spec fn elapsed(from: u64, to: u64) -> u64 {
    if to >= from {
        (to - from) as u64
    } else {
        0
    }
}

/// The watch ends, with an optional last status.
pub open spec fn finish(w: WatchView, updates: Seq<(Seq<char>, Option<Seq<char>>)>) -> (WatchView, StepView) {
    (WatchView { done: true, ..w }, StepView { updates, next: NextView::Finish { finalize: w.commit } })
}

/// An event that answers nothing the machine asked for ends the watch
/// without a vote.
pub open spec fn ill_timed(w: WatchView) -> (WatchView, StepView) {
    (WatchView { done: true, ..w }, StepView { updates: Seq::empty(), next: NextView::Finish { finalize: false } })
}

/// Back to the head of the watch loop with the followed edit `l`: read the
/// clock.
pub open spec fn ask_clock(w: WatchView, l: LocatedView) -> (WatchView, StepView) {
    (
        WatchView { located: Some(l), awaiting: Awaiting::Clock, ..w },
        StepView { updates: Seq::empty(), next: NextView::Clock },
    )
}

/// The head of the watch loop when the clock reads `now`: another snapshot
/// after [`POLL_MS`], or the end of the [`WATCH_MS`] window.
pub open spec fn poll_or_expire(w: WatchView, l: LocatedView, now: u64) -> (WatchView, StepView) {
    if elapsed(l.started, now) < WATCH_MS {
        (
            WatchView { located: Some(l), awaiting: Awaiting::Snapshot, ..w },
            StepView { updates: Seq::empty(), next: NextView::Snapshot { delay_ms: POLL_MS, focus: Some(l.focus) } },
        )
    } else {
        finish(WatchView { located: Some(l), ..w }, seq![("观察结束（60 秒）；下一次听写会重新开始"@, None)])
    }
}

/// The first step of a watch: show that the dictation is being located, and
/// take a first snapshot at once.
pub open spec fn started(generation: u64, inserted: Seq<char>) -> (WatchView, StepView) {
    (
        WatchView {
            generation,
            inserted,
            attempts: 0,
            located: None,
            awaiting: Awaiting::Snapshot,
            done: false,
            commit: false,
        },
        StepView {
            updates: seq![("正在定位听写输入框…"@, None)],
            next: NextView::Snapshot { delay_ms: 0, focus: None },
        },
    )
}

/// How the watch answers a snapshot while the dictation is being located.
pub open spec fn step_locating(w: WatchView, app: Seq<char>, focus: Seq<i32>, text: Seq<char>, now: u64) -> (WatchView, StepView) {
    let attempts = if w.attempts < LOCATE_ATTEMPTS {
        (w.attempts + 1) as u32
    } else {
        LOCATE_ATTEMPTS
    };
    match anchor_of(text, w.inserted) {
        Some(a) => {
            let l = LocatedView {
                anchor: a,
                app,
                focus,
                started: now,
                pending: w.inserted,
                reported: w.inserted,
                stable_since: now,
            };
            (
                WatchView { attempts, located: Some(l), awaiting: Awaiting::Start, ..w },
                StepView {
                    updates: seq![
                        ("正在定位听写输入框…"@, Some(app)),
                        ("观察中：请在原输入框修改刚才的文字（60 秒）"@, Some(app)),
                    ],
                    next: NextView::Clock,
                },
            )
        },
        None => if attempts < LOCATE_ATTEMPTS {
            (
                WatchView { attempts, ..w },
                StepView {
                    updates: seq![("正在定位听写输入框…"@, Some(app))],
                    next: NextView::Snapshot { delay_ms: LOCATE_RETRY_MS, focus: None },
                },
            )
        } else {
            (
                WatchView { attempts, awaiting: Awaiting::Pause, ..w },
                StepView {
                    updates: seq![("正在定位听写输入框…"@, Some(app))],
                    next: NextView::Wait { delay_ms: LOCATE_RETRY_MS },
                },
            )
        },
    }
}

/// How the watch answers a snapshot of the field once the dictation was
/// found at `l`.
pub open spec fn step_watching(w: WatchView, l: LocatedView, focus: Seq<i32>, text: Seq<char>, now: u64) -> (WatchView, StepView) {
    if focus != l.focus {
        finish(w, seq![("已停止：焦点移到了另一个输入框"@, None)])
    } else {
        match middle_of(l.anchor.0, l.anchor.1, text) {
            None => finish(w, seq![("已停止：本次听写范围外的文字发生变化"@, None)]),
            Some(after) => if trimmed(after).len() == 0 {
                finish(w, seq![("已停止：文字已清空或发送，不将其视为纠错"@, None)])
            } else if after != l.pending {
                ask_clock(WatchView { commit: false, ..w }, LocatedView { pending: after, stable_since: now, ..l })
            } else if l.pending != l.reported && elapsed(l.stable_since, now) >= STABLE_MS {
                (
                    WatchView { awaiting: Awaiting::Record, ..w },
                    StepView {
                        updates: Seq::empty(),
                        next: NextView::Record { app: l.app, before: w.inserted, after: l.pending },
                    },
                )
            } else {
                ask_clock(w, l)
            },
        }
    }
}

/// How the watch answers an event.
///
/// While locating, each snapshot is searched for the one occurrence of the
/// dictated text; after [`LOCATE_ATTEMPTS`] misses, and a last pause of
/// [`LOCATE_RETRY_MS`], the watch gives up. Once found, the watch window
/// starts when the clock is next read. At the head of each round the clock
/// decides whether the [`WATCH_MS`] window is still open; each snapshot of the
/// same field then yields the text now between the unchanged surroundings. A
/// new edit restarts the stability clock and withdraws the vote of the
/// session, an edit unchanged for [`STABLE_MS`] and not yet reported is
/// recorded, and the session votes when the recorded edit differs from the
/// dictation. Focus moving elsewhere, changes outside the dictated region, a
/// cleared text, a failure or a cancellation end the watch, and so does an
/// event that answers nothing the machine asked for.
pub open spec fn stepped(w: WatchView, e: EventView) -> (WatchView, StepView) {
    if w.done {
        (w, StepView { updates: Seq::empty(), next: NextView::Finish { finalize: false } })
    } else {
        match e {
            EventView::Cancelled => finish(w, Seq::empty()),
            EventView::Failed(reason) => finish(w, seq![(reason, None)]),
            EventView::Recorded(ok) => if !(w.awaiting is Record) || w.located is None {
                ill_timed(w)
            } else if !ok {
                finish(w, Seq::empty())
            } else {
                let l = w.located.unwrap();
                ask_clock(WatchView { commit: l.pending != w.inserted, ..w }, LocatedView { reported: l.pending, ..l })
            },
            EventView::Clock(now) => if !(w.awaiting is Start || w.awaiting is Clock) || w.located is None {
                ill_timed(w)
            } else {
                let l = w.located.unwrap();
                if w.awaiting is Start {
                    poll_or_expire(w, LocatedView { started: now, stable_since: now, ..l }, now)
                } else {
                    poll_or_expire(w, l, now)
                }
            },
            EventView::Waited => if !(w.awaiting is Pause) || w.located is Some {
                ill_timed(w)
            } else {
                finish(w, seq![("未定位原文：输入框不提供完整文字、原文重复或已被修改"@, None)])
            },
            EventView::Snapshot { app, focus, text, now } => if !(w.awaiting is Snapshot) {
                ill_timed(w)
            } else {
                match w.located {
                    None => step_locating(w, app, focus, text, now),
                    Some(l) => step_watching(w, l, focus, text, now),
                }
            },
        }
    }
}

/// The session votes only for a recorded edit that differs from the
/// dictation and has not changed since.
pub open spec fn commit_justified(w: WatchView) -> bool {
    w.commit ==> (w.located matches Some(l) && l.reported == l.pending && l.pending != w.inserted)
}

/// A new watch has nothing to vote for.
pub proof fn lemma_started_justified(generation: u64, inserted: Seq<char>)
    ensures
        commit_justified(started(generation, inserted).0),
        !started(generation, inserted).0.done,
{
}

/// Every step keeps the vote justified: an intermediate edit withdraws the
/// vote, and only recording a changed edit grants it.
pub proof fn lemma_step_keeps_commit_justified(w: WatchView, e: EventView)
    requires
        commit_justified(w),
    ensures
        commit_justified(stepped(w, e).0),
{
}

/// A session votes only for a recorded edit that differs from the dictation:
/// when the watch ends asking to finalize, the last recorded edit is the
/// current one and is not the dictated text.
pub proof fn lemma_vote_means_recorded_change(w: WatchView, e: EventView)
    requires
        commit_justified(w),
        stepped(w, e).1.next == (NextView::Finish { finalize: true }),
    ensures
        stepped(w, e).0.done,
        stepped(w, e).0.located matches Some(l) && l.reported == l.pending && l.pending != w.inserted,
{
}

/// One dictation votes at most once: a finished watch stays finished and
/// never asks to finalize again.
pub proof fn lemma_finishes_once(w: WatchView, e: EventView)
    ensures
        stepped(w, e).1.next is Finish ==> stepped(w, e).0.done,
        w.done ==> stepped(w, e).0 == w && stepped(w, e).1.next == (NextView::Finish { finalize: false }),
{
}

/// Only an edit that stayed unchanged for [`STABLE_MS`] and was not reported
/// yet is recorded, and what is recorded is the dictation and that edit.
pub proof fn lemma_records_only_stable_edits(w: WatchView, e: EventView)
    requires
        stepped(w, e).1.next is Record,
    ensures
        e matches EventView::Snapshot { now, text, .. } && w.located matches Some(l) && {
            &&& elapsed(l.stable_since, now) >= STABLE_MS
            &&& l.pending != l.reported
            &&& middle_of(l.anchor.0, l.anchor.1, text) == Some(l.pending)
            &&& stepped(w, e).1.next == (NextView::Record { app: l.app, before: w.inserted, after: l.pending })
        },
{
}

/// A new edit restarts the stability clock: whenever a step changes the
/// pending edit, the event was a snapshot showing it, and the edit counts as
/// stable from that snapshot's time on.
pub proof fn lemma_new_edit_restarts_stability(w: WatchView, e: EventView)
    requires
        w.located is Some,
        stepped(w, e).0.located is Some,
        stepped(w, e).0.located.unwrap().pending != w.located.unwrap().pending,
    ensures
        e matches EventView::Snapshot { now, .. } && stepped(w, e).0.located.unwrap().stable_since == now,
{
}

/// No status line.
fn no_updates() -> (r: Vec<StatusUpdate>)
    ensures
        updates_view(r@) == Seq::<(Seq<char>, Option<Seq<char>>)>::empty(),
{
    let r: Vec<StatusUpdate> = Vec::new();
    assert(updates_view(r@) =~= Seq::<(Seq<char>, Option<Seq<char>>)>::empty());
    r
}

/// One status line.
fn one_update(u: StatusUpdate) -> (r: Vec<StatusUpdate>)
    ensures
        updates_view(r@) == seq![u@],
{
    let ghost v = u@;
    let mut r: Vec<StatusUpdate> = Vec::new();
    r.push(u);
    assert(updates_view(r@) =~= seq![v]);
    r
}

/// Two status lines, in order.
fn two_updates(a: StatusUpdate, b: StatusUpdate) -> (r: Vec<StatusUpdate>)
    ensures
        updates_view(r@) == seq![a@, b@],
{
    let ghost va = a@;
    let ghost vb = b@;
    let mut r: Vec<StatusUpdate> = Vec::new();
    r.push(a);
    r.push(b);
    assert(updates_view(r@) =~= seq![va, vb]);
    r
}

/// A copy of `v`.
pub(crate) fn copy_focus(v: &Vec<i32>) -> (r: Vec<i32>)
    ensures
        r@ == v@,
{
    let mut r: Vec<i32> = Vec::new();
    let mut i: usize = 0;
    while i < v.len()
        invariant
            i <= v.len(),
            r@ == v@.take(i as int),
        decreases v.len() - i,
    {
        r.push(v[i]);
        assert(v@.take(i + 1) =~= v@.take(i as int).push(v@[i as int]));
        i += 1;
    }
    assert(v@.take(i as int) =~= v@);
    r
}

/// Whether two fields are the same field.
pub fn same_focus(a: &Vec<i32>, b: &Vec<i32>) -> (r: bool)
    ensures
        r == (a@ == b@),
{
    if a.len() != b.len() {
        return false;
    }
    let mut i: usize = 0;
    while i < a.len()
        invariant
            a.len() == b.len(),
            i <= a.len(),
            forall|k: int| 0 <= k < i ==> a@[k] == b@[k],
        decreases a.len() - i,
    {
        if a[i] != b[i] {
            return false;
        }
        i += 1;
    }
    assert(a@ =~= b@);
    true
}

/// Milliseconds from `from` to `to` (zero if `to` is earlier).
fn elapsed_ms(from: u64, to: u64) -> (r: u64)
    ensures
        r == elapsed(from, to),
{
    if to >= from {
        to - from
    } else {
        0
    }
}

impl Watch {
    /// Starts watching the dictation `inserted` of session `generation`.
    pub fn new(generation: u64, inserted: String) -> (r: (Self, WatchStep))
        ensures
            (r.0@, r.1@) == started(generation, inserted@),
    {
        (
            Watch {
                generation,
                inserted,
                attempts: 0,
                located: None,
                awaiting: Awaiting::Snapshot,
                done: false,
                commit: false,
            },
            WatchStep {
                updates: one_update(StatusUpdate { status: literal("正在定位听写输入框…"), app: None }),
                next: Next::Snapshot { delay_ms: 0, focus: None },
            },
        )
    }

    /// Ends the watch with an optional last status.
    fn finish(&mut self, updates: Vec<StatusUpdate>) -> (r: WatchStep)
        ensures
            (final(self)@, r@) == finish(old(self)@, updates_view(updates@)),
    {
        self.done = true;
        WatchStep { updates, next: Next::Finish { finalize: self.commit } }
    }

    /// Ends the watch after an event that answers nothing it asked for.
    fn ill_timed(&mut self) -> (r: WatchStep)
        ensures
            (final(self)@, r@) == ill_timed(old(self)@),
    {
        self.done = true;
        WatchStep { updates: no_updates(), next: Next::Finish { finalize: false } }
    }

    /// Asks for the clock at the head of the watch loop.
    fn ask_clock(&mut self) -> (r: WatchStep)
        requires
            old(self).located is Some,
        ensures
            (final(self)@, r@) == ask_clock(old(self)@, old(self)@.located.unwrap()),
    {
        self.awaiting = Awaiting::Clock;
        WatchStep { updates: no_updates(), next: Next::Clock }
    }

    /// The head of the watch loop when the clock reads `now` (see
    /// [`poll_or_expire`]).
    fn poll_or_expire(&mut self, now: u64) -> (r: WatchStep)
        requires
            old(self).located is Some,
        ensures
            (final(self)@, r@) == poll_or_expire(old(self)@, old(self)@.located.unwrap(), now),
    {
        let started = match &self.located {
            Some(l) => l.started,
            None => 0,
        };
        if elapsed_ms(started, now) < WATCH_MS {
            let focus = match &self.located {
                Some(l) => copy_focus(&l.focus),
                None => Vec::new(),
            };
            self.awaiting = Awaiting::Snapshot;
            WatchStep { updates: no_updates(), next: Next::Snapshot { delay_ms: POLL_MS, focus: Some(focus) } }
        } else {
            self.finish(one_update(StatusUpdate { status: literal("观察结束（60 秒）；下一次听写会重新开始"), app: None }))
        }
    }

    /// Answers `event` (see [`stepped`]).
    pub fn step(&mut self, event: WatchEvent) -> (r: WatchStep)
        ensures
            (final(self)@, r@) == stepped(old(self)@, event@),
    {
        if self.done {
            return WatchStep { updates: no_updates(), next: Next::Finish { finalize: false } };
        }
        match event {
            WatchEvent::Cancelled => self.finish(no_updates()),
            WatchEvent::Failed(reason) => self.finish(one_update(StatusUpdate { status: reason, app: None })),
            WatchEvent::Recorded(ok) => {
                let asked = match self.awaiting {
                    Awaiting::Record => true,
                    _ => false,
                };
                if !asked || self.located.is_none() {
                    return self.ill_timed();
                }
                if !ok {
                    return self.finish(no_updates());
                }
                match &mut self.located {
                    Some(l) => {
                        l.reported = l.pending.clone();
                    },
                    None => {},
                }
                self.commit = match &self.located {
                    Some(l) => l.pending != self.inserted,
                    None => false,
                };
                self.ask_clock()
            },
            WatchEvent::Clock(now) => {
                let starting = match self.awaiting {
                    Awaiting::Start => true,
                    _ => false,
                };
                let asked = match self.awaiting {
                    Awaiting::Start => true,
                    Awaiting::Clock => true,
                    _ => false,
                };
                if !asked || self.located.is_none() {
                    return self.ill_timed();
                }
                if starting {
                    match &mut self.located {
                        Some(l) => {
                            l.started = now;
                            l.stable_since = now;
                        },
                        None => {},
                    }
                }
                self.poll_or_expire(now)
            },
            WatchEvent::Waited => {
                let asked = match self.awaiting {
                    Awaiting::Pause => true,
                    _ => false,
                };
                if !asked || self.located.is_some() {
                    return self.ill_timed();
                }
                self.finish(one_update(StatusUpdate {
                    status: literal("未定位原文：输入框不提供完整文字、原文重复或已被修改"),
                    app: None,
                }))
            },
            WatchEvent::Snapshot(snap, now) => {
                let asked = match self.awaiting {
                    Awaiting::Snapshot => true,
                    _ => false,
                };
                if !asked {
                    return self.ill_timed();
                }
                if self.located.is_none() {
                    self.step_locating(snap, now)
                } else {
                    self.step_watching(snap, now)
                }
            },
        }
    }

    /// Answers a snapshot while the dictation is being located.
    fn step_locating(&mut self, snap: Snapshot, now: u64) -> (r: WatchStep)
        requires
            old(self).located is None,
        ensures
            (final(self)@, r@) == step_locating(old(self)@, snap.app@, snap.focus@, snap.text@, now),
    {
        self.attempts = if self.attempts < LOCATE_ATTEMPTS {
            self.attempts + 1
        } else {
            LOCATE_ATTEMPTS
        };
        match Anchor::new(snap.text.as_str(), self.inserted.as_str()) {
            Some(anchor) => {
                let app = snap.app.clone();
                let app2 = snap.app.clone();
                self.located = Some(Located {
                    anchor,
                    app: snap.app,
                    focus: snap.focus,
                    started: now,
                    pending: self.inserted.clone(),
                    reported: self.inserted.clone(),
                    stable_since: now,
                });
                self.awaiting = Awaiting::Start;
                WatchStep {
                    updates: two_updates(
                        StatusUpdate { status: literal("正在定位听写输入框…"), app: Some(app) },
                        StatusUpdate { status: literal("观察中：请在原输入框修改刚才的文字（60 秒）"), app: Some(app2) },
                    ),
                    next: Next::Clock,
                }
            },
            None => {
                let update = one_update(StatusUpdate { status: literal("正在定位听写输入框…"), app: Some(snap.app) });
                if self.attempts < LOCATE_ATTEMPTS {
                    WatchStep { updates: update, next: Next::Snapshot { delay_ms: LOCATE_RETRY_MS, focus: None } }
                } else {
                    self.awaiting = Awaiting::Pause;
                    WatchStep { updates: update, next: Next::Wait { delay_ms: LOCATE_RETRY_MS } }
                }
            },
        }
    }

    /// Answers a snapshot once the dictation was found.
    fn step_watching(&mut self, snap: Snapshot, now: u64) -> (r: WatchStep)
        requires
            old(self).located is Some,
        ensures
            (final(self)@, r@) == step_watching(
                old(self)@,
                old(self)@.located.unwrap(),
                snap.focus@,
                snap.text@,
                now,
            ),
    {
        let outcome: u8;
        let mut after_text: Option<String> = None;
        match &mut self.located {
            Some(l) => {
                if !same_focus(&snap.focus, &l.focus) {
                    outcome = 0;
                } else {
                    match l.anchor.extract(snap.text.as_str()) {
                        None => {
                            outcome = 1;
                        },
                        Some(after) => {
                            if is_blank(after.as_str()) {
                                outcome = 2;
                            } else if after != l.pending {
                                l.pending = after;
                                l.stable_since = now;
                                outcome = 3;
                            } else if l.pending != l.reported && elapsed_ms(l.stable_since, now) >= STABLE_MS {
                                after_text = Some(l.pending.clone());
                                outcome = 4;
                            } else {
                                outcome = 5;
                            }
                        },
                    }
                }
            },
            None => {
                outcome = 5;
            },
        }
        if outcome == 0 {
            self.finish(one_update(StatusUpdate { status: literal("已停止：焦点移到了另一个输入框"), app: None }))
        } else if outcome == 1 {
            self.finish(one_update(StatusUpdate { status: literal("已停止：本次听写范围外的文字发生变化"), app: None }))
        } else if outcome == 2 {
            self.finish(one_update(StatusUpdate { status: literal("已停止：文字已清空或发送，不将其视为纠错"), app: None }))
        } else if outcome == 3 {
            self.commit = false;
            self.ask_clock()
        } else if outcome == 4 {
            self.awaiting = Awaiting::Record;
            let app = match &self.located {
                Some(l) => l.app.clone(),
                None => String::new(),
            };
            let after = match after_text {
                Some(a) => a,
                None => String::new(),
            };
            WatchStep { updates: no_updates(), next: Next::Record { app, before: self.inserted.clone(), after } }
        } else {
            self.ask_clock()
        }
    }
}

} // verus!

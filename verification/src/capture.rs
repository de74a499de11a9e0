//! The edit-capture ledger: the records of observed edits, the learning
//! progress, and the status shown to the user.
use vstd::prelude::*;
use vstd::string::*;
use crate::learning::{LearnedWord, WordView, finalized, is_first_record, words_view};
use crate::text::{chars_of, crlf_to_lf, is_blank, literal, normalize_newlines, text_eq, trimmed};

verus! {

/// The longest dictated text that is watched for edits, in characters.
pub const MAX_WATCHED_CHARS: usize = 4000;

/// How many edit records are kept, newest first.
pub const MAX_RECORDS: usize = 500;

/// One observed edit of one dictation (one session).
pub struct Record {
    pub session: u64,
    pub app: String,
    pub before: String,
    pub after: String,
    pub finalized: bool,
}

/// The content of a [`Record`].
pub struct RecordView {
    pub session: u64,
    pub app: Seq<char>,
    pub before: Seq<char>,
    pub after: Seq<char>,
    pub finalized: bool,
}

impl View for Record {
    type V = RecordView;

    open spec fn view(&self) -> RecordView {
        RecordView {
            session: self.session,
            app: self.app@,
            before: self.before@,
            after: self.after@,
            finalized: self.finalized,
        }
    }
}

impl Clone for Record {
    fn clone(&self) -> (r: Self)
        ensures
            r@ == self@,
    {
        Record {
            session: self.session,
            app: self.app.clone(),
            before: self.before.clone(),
            after: self.after.clone(),
            finalized: self.finalized,
        }
    }
}

/// The content of each record.
pub open spec fn records_view(records: Seq<Record>) -> Seq<RecordView> {
    records.map_values(|r: Record| r@)
}

/// The state of edit capture.
pub struct CaptureState {
    pub enabled: bool,
    pub supported: bool,
    pub status: String,
    pub app: String,
    pub records: Vec<Record>,
    pub learning: Vec<LearnedWord>,
}

/// The content of a [`CaptureState`].
pub struct StateView {
    pub enabled: bool,
    pub supported: bool,
    pub status: Seq<char>,
    pub app: Seq<char>,
    pub records: Seq<RecordView>,
    pub learning: Seq<WordView>,
}

impl View for CaptureState {
    type V = StateView;

    open spec fn view(&self) -> StateView {
        StateView {
            enabled: self.enabled,
            supported: self.supported,
            status: self.status@,
            app: self.app@,
            records: records_view(self.records@),
            learning: words_view(self.learning@),
        }
    }
}

/// The next value of the session counter (it wraps around like an atomic add).
pub open spec fn next_generation(generation: u64) -> u64 {
    if generation == u64::MAX {
        0
    } else {
        (generation + 1) as u64
    }
}

/// `records` without the ones of `session`, in the same order.
pub open spec fn without_session(records: Seq<RecordView>, session: u64) -> Seq<RecordView>
    decreases records.len(),
{
    if records.len() == 0 {
        records
    } else {
        let rest = without_session(records.drop_last(), session);
        if records.last().session == session {
            rest
        } else {
            rest.push(records.last())
        }
    }
}

/// No two records belong to the same session.
pub open spec fn distinct_sessions(records: Seq<RecordView>) -> bool {
    forall|i: int, j: int|
        0 <= i < records.len() && 0 <= j < records.len() && i != j ==> #[trigger] records[i].session
            != #[trigger] records[j].session
}

/// The ledger after recording the stable edit `before → after` of `session`:
/// the previous record of that session is replaced, a no-op edit removes it,
/// and at most [`MAX_RECORDS`] records are kept, newest first.
pub open spec fn recorded(
    s: StateView,
    session: u64,
    app: Seq<char>,
    before: Seq<char>,
    after: Seq<char>,
) -> StateView {
    let kept = without_session(s.records, session);
    let records = if after != before {
        let all = kept.insert(
            0,
            RecordView { session, app, before, after, finalized: false },
        );
        if all.len() > MAX_RECORDS {
            all.take(MAX_RECORDS as int)
        } else {
            all
        }
    } else {
        kept
    };
    StateView { records, status: "已捕获修改；仍在观察，返回此页可查看"@, ..s }
}

/// The state after a dictation's watch was cancelled.
pub open spec fn cancelled(s: StateView) -> StateView {
    if s.enabled {
        StateView { app: Seq::empty(), status: "等待本次听写完成"@, ..s }
    } else {
        s
    }
}

/// The state after the watch of `generation` reports `status` (and the
/// application it found), when `generation` is still the current one.
pub open spec fn updated(
    s: StateView,
    current: u64,
    generation: u64,
    status: Seq<char>,
    app: Option<Seq<char>>,
) -> StateView {
    if current != generation {
        s
    } else {
        match app {
            Some(a) => StateView { status, app: a, ..s },
            None => StateView { status, ..s },
        }
    }
}

/// The state a freshly loaded ledger starts from: no application shown, the
/// platform support of this build, and a status that says whether capture is on.
pub open spec fn restored(s: StateView, supported: bool) -> StateView {
    StateView {
        app: Seq::empty(),
        supported,
        status: if s.enabled {
            "等待下一次听写；重复纠词自动学习"@
        } else {
            "已停止捕获"@
        },
        ..s
    }
}

/// The largest session among `records`, or 0.
pub open spec fn max_session(records: Seq<RecordView>) -> u64
    decreases records.len(),
{
    if records.len() == 0 {
        0
    } else {
        let rest = max_session(records.drop_last());
        if records.last().session > rest {
            records.last().session
        } else {
            rest
        }
    }
}

/// Whether a watched dictation is accepted: not blank and at most
/// [`MAX_WATCHED_CHARS`] characters once line endings are normalized.
pub open spec fn watchable(text: Seq<char>) -> bool {
    trimmed(crlf_to_lf(text)).len() != 0 && crlf_to_lf(text).len() <= MAX_WATCHED_CHARS
}

/// Saving is refused once stored records could not be read, so that the
/// stored file is never overwritten by a ledger that lacks them.
pub fn storage_guard(storage_ok: bool) -> (r: Result<(), String>)
    ensures
        r is Ok <==> storage_ok,
        r matches Err(e) ==> e@ == "学习记录不可用，未覆盖原文件"@,
{
    if storage_ok {
        Ok(())
    } else {
        Err(literal("学习记录不可用，未覆盖原文件"))
    }
}

/// Only the main window may see or change the capture ledger.
pub fn main_only(label: &str) -> (r: Result<(), String>)
    ensures
        r is Ok <==> label@ == "main"@,
        r matches Err(e) ==> e@ == "仅主窗口可查看修改记录"@,
{
    if text_eq(label, "main") {
        Ok(())
    } else {
        Err(literal("仅主窗口可查看修改记录"))
    }
}

impl CaptureState {
    /// The ledger before anything was loaded: capture is on exactly where it
    /// is supported.
    pub fn initial(supported: bool) -> (r: Self)
        ensures
            r@ == (StateView {
                enabled: supported,
                supported,
                status: "自动捕获已开启；等待下一次听写"@,
                app: Seq::empty(),
                records: Seq::empty(),
                learning: Seq::empty(),
            }),
    {
        let r = CaptureState {
            enabled: supported,
            supported,
            status: literal("自动捕获已开启；等待下一次听写"),
            app: String::new(),
            records: Vec::new(),
            learning: Vec::new(),
        };
        assert(r@.records =~= Seq::<RecordView>::empty());
        assert(r@.learning =~= Seq::<WordView>::empty());
        r
    }

    /// Replaces the status line.
    fn set_status(&mut self, status: String)
        ensures
            final(self)@ == (StateView { status: status@, ..old(self)@ }),
    {
        self.status = status;
    }

    /// Forgets all edit records (the learning progress stays).
    pub fn clear_records(&mut self)
        ensures
            final(self)@ == (StateView { records: Seq::empty(), ..old(self)@ }),
    {
        self.records.clear();
        assert(final(self)@.records =~= Seq::<RecordView>::empty());
    }

    /// Reports that saving the ledger after a capture failed.
    pub fn note_save_failure(&mut self, error: &str)
        ensures
            final(self)@ == (StateView { status: "记录保存失败："@ + error@, ..old(self)@ }),
    {
        let mut s = literal("记录保存失败：");
        s.append(error);
        self.set_status(s);
    }

    /// The state of a ledger just read from storage, and the first session
    /// number to use from now on (one past the largest recorded session).
    pub fn restore(self, supported: bool) -> (r: (Self, u64))
        requires
            forall|i: int| 0 <= i < self.records@.len() ==> self.records@[i].session < u64::MAX,
        ensures
            r.0@ == restored(self@, supported),
            r.1 == max_session(self@.records) + 1,
    {
        let mut s = self;
        let mut max: u64 = 0;
        let mut i: usize = 0;
        let ghost rv = records_view(s.records@);
        assert(rv.take(0) =~= Seq::<RecordView>::empty());
        while i < s.records.len()
            invariant
                i <= s.records.len(),
                rv == records_view(s.records@),
                max == max_session(rv.take(i as int)),
                forall|k: int| 0 <= k < s.records@.len() ==> s.records@[k].session < u64::MAX,
            decreases s.records.len() - i,
        {
            assert(rv.take(i + 1).drop_last() =~= rv.take(i as int));
            if s.records[i].session > max {
                max = s.records[i].session;
            }
            i += 1;
        }
        assert(rv.take(i as int) =~= rv);
        proof {
            lemma_max_session_is_a_session(rv);
        }
        s.app = String::new();
        s.supported = supported;
        s.status = if s.enabled {
            literal("等待下一次听写；重复纠词自动学习")
        } else {
            literal("已停止捕获")
        };
        (s, max + 1)
    }

    /// The ledger to use when stored records could not be read: automatic
    /// learning is stopped and the reason is shown.
    pub fn load_failed(self, error: &str) -> (r: Self)
        ensures
            r@ == (StateView {
                enabled: false,
                status: "学习记录读取失败，已停止自动学习并保留原文件："@ + error@,
                ..self@
            }),
    {
        let mut s = self;
        s.enabled = false;
        let mut m = literal("学习记录读取失败，已停止自动学习并保留原文件：");
        m.append(error);
        s.status = m;
        s
    }

    /// Records the stable edit `before → after` of `session`, if `session`
    /// is still the `current` one; returns whether it did.
    pub fn record_edit(
        &mut self,
        current: u64,
        session: u64,
        app: &str,
        before: &str,
        after: &str,
    ) -> (r: bool)
        ensures
            r == (current == session),
            r ==> final(self)@ == recorded(old(self)@, session, app@, before@, after@),
            !r ==> final(self)@ == old(self)@,
    {
        if current != session {
            return false;
        }
        let ghost old_view = self@;
        let mut kept: Vec<Record> = Vec::new();
        let mut i: usize = 0;
        let ghost rv = records_view(self.records@);
        assert(rv.take(0) =~= Seq::<RecordView>::empty());
        while i < self.records.len()
            invariant
                i <= self.records.len(),
                rv == records_view(self.records@),
                records_view(kept@) == without_session(rv.take(i as int), session),
            decreases self.records.len() - i,
        {
            assert(rv.take(i + 1).drop_last() =~= rv.take(i as int));
            if self.records[i].session != session {
                let r = self.records[i].clone();
                kept.push(r);
                assert(records_view(kept@) =~= without_session(rv.take(i as int), session).push(
                    rv[i as int],
                ));
            }
            i += 1;
        }
        assert(rv.take(i as int) =~= rv);
        let ghost kept_view = records_view(kept@);
        if !text_eq(after, before) {
            let rec = Record {
                session,
                app: String::from_str(app),
                before: String::from_str(before),
                after: String::from_str(after),
                finalized: false,
            };
            kept.insert(0, rec);
            assert(records_view(kept@) =~= kept_view.insert(0, rec@));
            kept.truncate(MAX_RECORDS);
            assert(records_view(kept@) =~= (if kept_view.insert(0, rec@).len() > MAX_RECORDS {
                kept_view.insert(0, rec@).take(MAX_RECORDS as int)
            } else {
                kept_view.insert(0, rec@)
            }));
        }
        self.records = kept;
        self.status = literal("已捕获修改；仍在观察，返回此页可查看");
        assert(self@ == recorded(old_view, session, app@, before@, after@));
        true
    }
}

/// The largest session is one of the sessions (or 0 when there are none).
proof fn lemma_max_session_is_a_session(records: Seq<RecordView>)
    ensures
        records.len() == 0 ==> max_session(records) == 0,
        records.len() > 0 ==> exists|i: int| 0 <= i < records.len() && records[i].session == max_session(records),
        forall|i: int| 0 <= i < records.len() ==> records[i].session <= max_session(records),
    decreases records.len(),
{
    if records.len() > 0 {
        lemma_max_session_is_a_session(records.drop_last());
        if max_session(records.drop_last()) >= records.last().session && records.len() > 1 {
            let k = choose|k: int| 0 <= k < records.drop_last().len() && records.drop_last()[k].session == max_session(records.drop_last());
            assert(records[k].session == max_session(records));
        }
        assert forall|i: int| 0 <= i < records.len() implies records[i].session <= max_session(records) by {
            if i < records.len() - 1 {
                assert(records[i] == records.drop_last()[i]);
            }
        }
    }
}

/// Stops watching the current dictation: the session counter moves on, so
/// that the watch in progress stops, and the status says so.
pub fn cancel_watch(state: &mut CaptureState, generation: &mut u64)
    ensures
        final(state)@ == cancelled(old(state)@),
        *final(generation) == next_generation(*old(generation)),
{
    *generation = if *generation == u64::MAX {
        0
    } else {
        *generation + 1
    };
    if state.enabled {
        state.app = String::new();
        state.status = literal("等待本次听写完成");
    }
}

/// Shows `status` (and the application found, if any) for the watch of
/// `generation`, unless a newer dictation has replaced it.
pub fn update(state: &mut CaptureState, current: u64, generation: u64, status: &str, app: Option<&str>)
    ensures
        final(state)@ == updated(
            old(state)@,
            current,
            generation,
            status@,
            match app {
                Some(a) => Some(a@),
                None => None,
            },
        ),
{
    if current != generation {
        return;
    }
    state.status = String::from_str(status);
    if let Some(a) = app {
        state.app = String::from_str(a);
    }
}

/// Starts watching a dictated `text`: when capture is on, the session counter
/// moves on (the new value is this watch's session) and the application shown
/// is cleared. Returns the session and the text with normalized line endings
/// when that text can be watched; otherwise the status explains why not.
pub fn begin_observe(state: &mut CaptureState, generation: &mut u64, text: &str) -> (r: Option<
    (u64, String),
>)
    ensures
        !old(state).enabled ==> r is None && final(state)@ == old(state)@ && *final(generation)
            == *old(generation),
        old(state).enabled ==> *final(generation) == next_generation(*old(generation)),
        old(state).enabled && watchable(text@) ==> (r matches Some((g, t)) && g == *final(generation)
            && t@ == crlf_to_lf(text@) && final(state)@ == (StateView {
            app: Seq::empty(),
            ..old(state)@
        })),
        old(state).enabled && !watchable(text@) ==> r is None && final(state)@ == (StateView {
            app: Seq::empty(),
            status: "未捕获：文字为空或超过 4000 字"@,
            ..old(state)@
        }),
{
    if !state.enabled {
        return None;
    }
    state.app = String::new();
    *generation = if *generation == u64::MAX {
        0
    } else {
        *generation + 1
    };
    let g = *generation;
    let text = normalize_newlines(text);
    let n = chars_of(text.as_str()).len();
    if is_blank(text.as_str()) || n > MAX_WATCHED_CHARS {
        update(state, g, g, "未捕获：文字为空或超过 4000 字", None);
        return None;
    }
    Some((g, text))
}

/// Recording an edit keeps the records of distinct sessions distinct: one
/// session is never recorded twice.
pub proof fn lemma_recorded_distinct(
    s: StateView,
    session: u64,
    app: Seq<char>,
    before: Seq<char>,
    after: Seq<char>,
)
    requires
        distinct_sessions(s.records),
    ensures
        distinct_sessions(recorded(s, session, app, before, after).records),
        forall|i: int| 0 <= i < recorded(s, session, app, before, after).records.len() ==>
            #[trigger] recorded(s, session, app, before, after).records[i].session == session ==> i == 0,
{
    lemma_without_session(s.records, session);
    let kept = without_session(s.records, session);
    if after != before {
        let all = kept.insert(0, RecordView { session, app, before, after, finalized: false });
        assert forall|i: int, j: int|
            0 <= i < all.len() && 0 <= j < all.len() && i != j implies #[trigger] all[i].session
            != #[trigger] all[j].session by {
            if i > 0 && j > 0 {
                assert(all[i] == kept[i - 1]);
                assert(all[j] == kept[j - 1]);
            } else if i == 0 {
                assert(all[j] == kept[j - 1]);
            } else {
                assert(all[i] == kept[i - 1]);
            }
        }
        assert forall|i: int| 0 <= i < all.len() && #[trigger] all[i].session == session implies i == 0 by {
            if i > 0 {
                assert(all[i] == kept[i - 1]);
            }
        }
    }
}

/// Dropping a session's records keeps the others, in order, and drops all of
/// that session's.
pub proof fn lemma_without_session(records: Seq<RecordView>, session: u64)
    ensures
        forall|i: int| 0 <= i < without_session(records, session).len() ==> #[trigger] without_session(records, session)[i].session != session,
        distinct_sessions(records) ==> distinct_sessions(without_session(records, session)),
        forall|i: int| 0 <= i < without_session(records, session).len() ==> records.contains(#[trigger] without_session(records, session)[i]),
        without_session(records, session).len() <= records.len(),
    decreases records.len(),
{
    if records.len() > 0 {
        let rest = records.drop_last();
        lemma_without_session(rest, session);
        let w = without_session(rest, session);
        assert forall|i: int| 0 <= i < w.len() implies records.contains(#[trigger] w[i]) by {
            let k = choose|k: int| 0 <= k < rest.len() && rest[k] == w[i];
            assert(records[k] == w[i]);
        }
        if distinct_sessions(records) {
            assert(distinct_sessions(rest)) by {
                assert forall|i: int, j: int|
                    0 <= i < rest.len() && 0 <= j < rest.len() && i != j implies #[trigger] rest[i].session
                    != #[trigger] rest[j].session by {
                    assert(rest[i] == records[i]);
                    assert(rest[j] == records[j]);
                }
            }
            if records.last().session != session {
                let ww = w.push(records.last());
                assert forall|i: int, j: int|
                    0 <= i < ww.len() && 0 <= j < ww.len() && i != j implies #[trigger] ww[i].session
                    != #[trigger] ww[j].session by {
                    if i < w.len() && j == w.len() {
                        let k = choose|k: int| 0 <= k < rest.len() && rest[k] == w[i];
                        assert(records[k] == w[i]);
                    } else if j < w.len() && i == w.len() {
                        let k = choose|k: int| 0 <= k < rest.len() && rest[k] == w[j];
                        assert(records[k] == w[j]);
                    }
                }
            }
        }
    }
}

/// Once a watch is cancelled, nothing it still reports reaches the ledger.
pub proof fn lemma_cancel_silences_watch(
    s: StateView,
    generation: u64,
    status: Seq<char>,
    app: Option<Seq<char>>,
)
    ensures
        updated(s, next_generation(generation), generation, status, app) == s,
{
}

/// A ledger restored from storage numbers new sessions after every recorded
/// one, so a new session never shares a record with an old one.
pub proof fn lemma_restored_sessions_are_fresh(records: Seq<RecordView>)
    requires
        forall|i: int| 0 <= i < records.len() ==> records[i].session < u64::MAX,
    ensures
        forall|i: int| 0 <= i < records.len() ==> records[i].session < max_session(records) + 1,
{
    lemma_max_session_is_a_session(records);
}

/// Recording an edit never touches the learning progress or the switch, and
/// the ledger never holds more than [`MAX_RECORDS`] records.
pub proof fn lemma_recording_keeps_learning(
    s: StateView,
    session: u64,
    app: Seq<char>,
    before: Seq<char>,
    after: Seq<char>,
)
    requires
        s.records.len() <= MAX_RECORDS,
    ensures
        recorded(s, session, app, before, after).learning == s.learning,
        recorded(s, session, app, before, after).enabled == s.enabled,
        recorded(s, session, app, before, after).records.len() <= MAX_RECORDS,
{
    lemma_without_session(s.records, session);
}

/// The ledger is in order: at most [`MAX_RECORDS`] records, newest first
/// with strictly decreasing sessions, none after the current session
/// `generation`, and each an actual change of its dictation.
pub open spec fn ledger_ok(records: Seq<RecordView>, generation: int) -> bool {
    &&& records.len() <= MAX_RECORDS
    &&& forall|i: int, j: int|
        #![trigger records[i], records[j]]
        0 <= i < j < records.len() ==> records[i].session > records[j].session
    &&& forall|i: int| 0 <= i < records.len() ==> #[trigger] records[i].session <= generation
    &&& forall|i: int| 0 <= i < records.len() ==> #[trigger] records[i].before != records[i].after
}

/// Dropping a session's records keeps the ledger in order.
proof fn lemma_without_session_ordered(records: Seq<RecordView>, session: u64, generation: int)
    requires
        ledger_ok(records, generation),
    ensures
        ledger_ok(without_session(records, session), generation),
    decreases records.len(),
{
    if records.len() > 0 {
        let rest = records.drop_last();
        assert(ledger_ok(rest, generation)) by {
            assert forall|i: int, j: int| 0 <= i < j < rest.len() implies rest[i].session > rest[j].session by {
                assert(rest[i] == records[i] && rest[j] == records[j]);
            }
            assert forall|i: int| 0 <= i < rest.len() implies #[trigger] rest[i].session <= generation by {
                assert(rest[i] == records[i]);
            }
            assert forall|i: int| 0 <= i < rest.len() implies #[trigger] rest[i].before != rest[i].after by {
                assert(rest[i] == records[i]);
            }
        }
        lemma_without_session_ordered(rest, session, generation);
        lemma_without_session(rest, session);
        let w = without_session(rest, session);
        if records.last().session != session {
            let ww = w.push(records.last());
            assert forall|i: int, j: int| 0 <= i < j < ww.len() implies ww[i].session > ww[j].session by {
                if j == w.len() {
                    let k = choose|k: int| 0 <= k < rest.len() && rest[k] == w[i];
                    assert(records[k] == w[i]);
                    assert(records[k].session > records[records.len() - 1].session);
                } else {
                    assert(ww[i] == w[i] && ww[j] == w[j]);
                }
            }
            assert forall|i: int| 0 <= i < ww.len() implies #[trigger] ww[i].session <= generation by {
                if i < w.len() {
                    assert(ww[i] == w[i]);
                }
            }
            assert forall|i: int| 0 <= i < ww.len() implies #[trigger] ww[i].before != ww[i].after by {
                if i < w.len() {
                    assert(ww[i] == w[i]);
                }
            }
        }
    }
}

/// The ledger stays in order through everything that happens to it:
/// recording an edit of the current session, ending an observation, moving
/// to the next session, clearing the records, and restoring from storage,
/// after which the session counter starts past every recorded session.
pub proof fn lemma_ledger_stays_ordered(
    s: StateView,
    generation: u64,
    app: Seq<char>,
    before: Seq<char>,
    after: Seq<char>,
    session: u64,
    supported: bool,
)
    requires
        ledger_ok(s.records, generation as int),
    ensures
        ledger_ok(recorded(s, generation, app, before, after).records, generation as int),
        finalized(s, session) matches Some((s1, _)) ==> ledger_ok(s1.records, generation as int),
        generation < u64::MAX ==> ledger_ok(s.records, next_generation(generation) as int),
        ledger_ok(Seq::<RecordView>::empty(), generation as int),
        ledger_ok(restored(s, supported).records, max_session(s.records) + 1),
{
    let g = generation as int;
    lemma_without_session_ordered(s.records, generation, g);
    lemma_without_session(s.records, generation);
    let kept = without_session(s.records, generation);
    if after != before {
        let all = kept.insert(0, RecordView { session: generation, app, before, after, finalized: false });
        assert(ledger_ok(all.take(if all.len() > MAX_RECORDS { MAX_RECORDS as int } else { all.len() as int }), g)) by {
            let t = all.take(if all.len() > MAX_RECORDS { MAX_RECORDS as int } else { all.len() as int });
            assert forall|i: int, j: int| 0 <= i < j < t.len() implies t[i].session > t[j].session by {
                assert(t[j] == kept[j - 1]);
                if i > 0 {
                    assert(t[i] == kept[i - 1]);
                } else {
                    assert(kept[j - 1].session != generation);
                }
            }
            assert forall|i: int| 0 <= i < t.len() implies #[trigger] t[i].session <= g by {
                if i > 0 {
                    assert(t[i] == kept[i - 1]);
                }
            }
            assert forall|i: int| 0 <= i < t.len() implies #[trigger] t[i].before != t[i].after by {
                if i > 0 {
                    assert(t[i] == kept[i - 1]);
                }
            }
        }
        if all.len() <= MAX_RECORDS {
            assert(all.take(all.len() as int) =~= all);
        }
    }
    if let Some((s1, _)) = finalized(s, session) {
        let i = choose|i: int| is_first_record(s.records, session, i);
        assert forall|a: int, b: int| 0 <= a < b < s1.records.len() implies s1.records[a].session > s1.records[b].session by {
            assert(s.records[a].session > s.records[b].session);
        }
        assert forall|a: int| 0 <= a < s1.records.len() implies #[trigger] s1.records[a].session <= g by {
            assert(s.records[a].session <= g);
        }
        assert forall|a: int| 0 <= a < s1.records.len() implies #[trigger] s1.records[a].before != s1.records[a].after by {
            assert(s.records[a].before != s.records[a].after);
        }
    }
    lemma_max_session_is_a_session(s.records);
}

} // verus!

//! Learning repeated word corrections into the shared vocabulary.
use vstd::prelude::*;
use vstd::string::*;
use crate::capture::{CaptureState, RecordView, StateView, records_view, recorded, restored};
use crate::learner::{candidate, candidate_of, pair_view, pairs_view, streak, streak_of};
use crate::text::literal;

verus! {

/// A correction being learned, and its progress.
pub struct LearnedWord {
    pub source: String,
    pub target: String,
    pub count: usize,
    pub status: String,
    pub dictionary_id: Option<String>,
    pub blocked: bool,
    pub learned_at: Option<String>,
}

/// The view of an optional string.
pub open spec fn opt_view(s: Option<String>) -> Option<Seq<char>> {
    match s {
        Some(s) => Some(s@),
        None => None,
    }
}

/// The content of a [`LearnedWord`].
pub struct WordView {
    pub source: Seq<char>,
    pub target: Seq<char>,
    pub count: nat,
    pub status: Seq<char>,
    pub dictionary_id: Option<Seq<char>>,
    pub blocked: bool,
    pub learned_at: Option<Seq<char>>,
}

impl View for LearnedWord {
    type V = WordView;

    open spec fn view(&self) -> WordView {
        WordView {
            source: self.source@,
            target: self.target@,
            count: self.count as nat,
            status: self.status@,
            dictionary_id: opt_view(self.dictionary_id),
            blocked: self.blocked,
            learned_at: opt_view(self.learned_at),
        }
    }
}

/// The content of each word.
pub open spec fn words_view(words: Seq<LearnedWord>) -> Seq<WordView> {
    words.map_values(|w: LearnedWord| w@)
}

/// A vocabulary entry of the shared dictionary.
pub struct VocabularyEntry {
    pub id: String,
    pub phrase: String,
    pub note: Option<String>,
    pub enabled: bool,
    pub created_at: String,
}

/// The content of a [`VocabularyEntry`].
pub struct EntryView {
    pub id: Seq<char>,
    pub phrase: Seq<char>,
    pub note: Option<Seq<char>>,
    pub enabled: bool,
    pub created_at: Seq<char>,
}

impl View for VocabularyEntry {
    type V = EntryView;

    open spec fn view(&self) -> EntryView {
        EntryView {
            id: self.id@,
            phrase: self.phrase@,
            note: opt_view(self.note),
            enabled: self.enabled,
            created_at: self.created_at@,
        }
    }
}

/// The content of an optional entry.
pub open spec fn entry_opt_view(e: Option<VocabularyEntry>) -> Option<EntryView> {
    match e {
        Some(e) => Some(e@),
        None => None,
    }
}

/// The content of each entry.
pub open spec fn entries_view(entries: Seq<VocabularyEntry>) -> Seq<EntryView> {
    entries.map_values(|e: VocabularyEntry| e@)
}

/// What a finished observation means for the learning of its correction.
pub enum Tally {
    /// Nothing more to do besides saving: the correction is still being
    /// observed, was rejected, or is already in the dictionary.
    Settled,
    /// The correction agreed in enough sessions: consult the dictionary for
    /// the word at this index.
    Ready(usize),
}

/// The corrections of the finished records, newest first.
pub open spec fn votes(records: Seq<RecordView>) -> Seq<(Seq<char>, Seq<char>)>
    decreases records.len(),
{
    if records.len() == 0 {
        Seq::empty()
    } else {
        let rest = votes(records.drop_last());
        let r = records.last();
        if r.finalized && candidate_of(r.before, r.after) is Some {
            rest.push(candidate_of(r.before, r.after).unwrap())
        } else {
            rest
        }
    }
}

/// `i` is the first position of a record of `session`.
pub open spec fn is_first_record(records: Seq<RecordView>, session: u64, i: int) -> bool {
    &&& 0 <= i < records.len()
    &&& records[i].session == session
    &&& forall|j: int| 0 <= j < i ==> #[trigger] records[j].session != session
}

/// `i` is the first position of the word `source → target`.
pub open spec fn is_first_word(words: Seq<WordView>, source: Seq<char>, target: Seq<char>, i: int) -> bool {
    &&& 0 <= i < words.len()
    &&& words[i].source == source
    &&& words[i].target == target
    &&& forall|j: int| 0 <= j < i ==> !(#[trigger] words[j].source == source && words[j].target == target)
}

/// The position of the word `source → target`, if it is being learned.
pub open spec fn word_position(words: Seq<WordView>, source: Seq<char>, target: Seq<char>) -> Option<int> {
    if exists|i: int| is_first_word(words, source, target, i) {
        Some(choose|i: int| is_first_word(words, source, target, i))
    } else {
        None
    }
}

/// The ledger once the observation of `session` has ended, and the
/// correction that the session's edit amounts to; none when capture is off or
/// the session left no record (nothing changes then).
pub open spec fn finalized(s: StateView, session: u64) -> Option<(StateView, Option<(Seq<char>, Seq<char>)>)> {
    if s.enabled && exists|i: int| is_first_record(s.records, session, i) {
        let i = choose|i: int| is_first_record(s.records, session, i);
        let r = s.records[i];
        Some((
            StateView { records: s.records.update(i, RecordView { finalized: true, ..r }), ..s },
            candidate_of(r.before, r.after),
        ))
    } else {
        None
    }
}

/// The status of a correction still being observed after `count` agreeing sessions.
pub open spec fn observing_status(count: nat) -> Seq<char> {
    if count == 0 {
        "观察中（0/2）"@
    } else {
        "观察中（1/2）"@
    }
}

/// The ledger after counting the sessions that agree on `source → target`,
/// and whether the dictionary must be consulted: the word is added to the
/// learning list if new, its count is the streak of agreeing finished
/// sessions, and only a word that is neither rejected nor already in the
/// dictionary, with at least two agreeing sessions, is ready.
pub open spec fn tallied(s: StateView, source: Seq<char>, target: Seq<char>) -> (StateView, Option<int>) {
    let count = streak_of(source, target, votes(s.records));
    let (words, i) = match word_position(s.learning, source, target) {
        Some(i) => (s.learning, i),
        None => (
            s.learning.insert(
                0,
                WordView {
                    source,
                    target,
                    count,
                    status: "观察中（1/2）"@,
                    dictionary_id: None,
                    blocked: false,
                    learned_at: None,
                },
            ),
            0,
        ),
    };
    let w = WordView { count, ..words[i] };
    if w.blocked || w.dictionary_id is Some {
        (StateView { learning: words.update(i, w), ..s }, None)
    } else if count < 2 {
        (StateView { learning: words.update(i, WordView { status: observing_status(count), ..w }), ..s }, None)
    } else {
        (StateView { learning: words.update(i, w), ..s }, Some(i))
    }
}

impl CaptureState {
    /// Ends the observation of `session`: its record is marked finished and the
    /// correction it amounts to is returned. Returns none, changing nothing,
    /// when capture is off or the session left no record.
    pub fn finalize_session(&mut self, session: u64) -> (r: Option<Option<(String, String)>>)
        ensures
            match finalized(old(self)@, session) {
                Some((s, pair)) => final(self)@ == s && (r matches Some(p) && pair_view(p) == pair),
                None => final(self)@ == old(self)@ && r is None,
            },
    {
        if !self.enabled {
            return None;
        }
        let ghost rv = records_view(self.records@);
        let mut i: usize = 0;
        while i < self.records.len() && self.records[i].session != session
            invariant
                i <= self.records.len(),
                rv == records_view(self.records@),
                forall|j: int| 0 <= j < i ==> #[trigger] rv[j].session != session,
            decreases self.records.len() - i,
        {
            i += 1;
        }
        if i == self.records.len() {
            assert(!exists|k: int| is_first_record(rv, session, k));
            return None;
        }
        assert(is_first_record(rv, session, i as int));
        let ghost old_view = self@;
        let pair = candidate(self.records[i].before.as_str(), self.records[i].after.as_str());
        self.records[i].finalized = true;
        proof {
            let k = choose|k: int| is_first_record(rv, session, k);
            assert(k == i);
            assert(self@.records =~= rv.update(k, RecordView { finalized: true, ..rv[k] }));
        }
        Some(pair)
    }

    /// The corrections of the finished records, newest first.
    fn finished_votes(&self) -> (r: Vec<(String, String)>)
        ensures
            pairs_view(r@) == votes(self@.records),
    {
        let ghost rv = self@.records;
        let mut r: Vec<(String, String)> = Vec::new();
        let mut i: usize = 0;
        assert(rv.take(0) =~= Seq::<RecordView>::empty());
        assert(pairs_view(r@) =~= Seq::<(Seq<char>, Seq<char>)>::empty());
        while i < self.records.len()
            invariant
                i <= self.records.len(),
                rv == self@.records,
                pairs_view(r@) == votes(rv.take(i as int)),
            decreases self.records.len() - i,
        {
            assert(rv.take(i + 1).drop_last() =~= rv.take(i as int));
            if self.records[i].finalized {
                if let Some(p) = candidate(self.records[i].before.as_str(), self.records[i].after.as_str()) {
                    let ghost pv = (p.0@, p.1@);
                    r.push(p);
                    assert(pairs_view(r@) =~= votes(rv.take(i as int)).push(pv));
                }
            }
            i += 1;
        }
        assert(rv.take(i as int) =~= rv);
        r
    }

    /// The first position of the word `source → target`, if it is being learned.
    fn find_word(&self, source: &String, target: &String) -> (r: Option<usize>)
        ensures
            match r {
                Some(i) => word_position(self@.learning, source@, target@) == Some(i as int),
                None => word_position(self@.learning, source@, target@) is None,
            },
    {
        let ghost wv = self@.learning;
        let mut i: usize = 0;
        while i < self.learning.len()
            invariant
                i <= self.learning.len(),
                wv == self@.learning,
                forall|j: int| 0 <= j < i ==> !(#[trigger] wv[j].source == source@ && wv[j].target == target@),
            decreases self.learning.len() - i,
        {
            if self.learning[i].source == *source && self.learning[i].target == *target {
                assert(is_first_word(wv, source@, target@, i as int));
                proof {
                    let k = choose|k: int| is_first_word(wv, source@, target@, k);
                    if k < i {
                    } else if k > i {
                    }
                }
                return Some(i);
            }
            i += 1;
        }
        assert(!exists|k: int| is_first_word(wv, source@, target@, k));
        None
    }

    /// Counts the finished sessions that agree on `source → target` (see
    /// [`tallied`]) and says whether the dictionary must now be consulted.
    pub fn tally(&mut self, source: String, target: String) -> (r: Tally)
        ensures
            final(self)@ == tallied(old(self)@, source@, target@).0,
            match tallied(old(self)@, source@, target@).1 {
                Some(i) => r == Tally::Ready(i as usize),
                None => r == Tally::Settled,
            },
    {
        let ghost s0 = self@;
        let pairs = self.finished_votes();
        let count = streak(source.as_str(), target.as_str(), pairs.as_slice());
        let i = match self.find_word(&source, &target) {
            Some(i) => i,
            None => {
                let w = LearnedWord {
                    source,
                    target,
                    count,
                    status: String::from_str("观察中（1/2）"),
                    dictionary_id: None,
                    blocked: false,
                    learned_at: None,
                };
                let ghost wv = w@;
                self.learning.insert(0, w);
                assert(self@.learning =~= s0.learning.insert(0, wv));
                0
            },
        };
        let ghost words = self@.learning;
        self.learning[i].count = count;
        if self.learning[i].blocked || self.learning[i].dictionary_id.is_some() {
            assert(self@.learning =~= words.update(i as int, WordView { count: count as nat, ..words[i as int] }));
            return Tally::Settled;
        }
        if count < 2 {
            self.learning[i].status = if count == 0 {
                String::from_str("观察中（0/2）")
            } else {
                String::from_str("观察中（1/2）")
            };
            assert(self@.learning =~= words.update(
                i as int,
                WordView { status: observing_status(count as nat), count: count as nat, ..words[i as int] },
            ));
            return Tally::Settled;
        }
        assert(self@.learning =~= words.update(i as int, WordView { count: count as nat, ..words[i as int] }));
        Tally::Ready(i)
    }
}


/// The note that marks a dictionary entry as added by automatic learning.
pub open spec fn note_of(source: Seq<char>, target: Seq<char>) -> Seq<char> {
    "OpenLess 自动学习："@ + source + " → "@ + target + "（两个独立听写记录）"@
}

/// `k` is the first position of an entry for `phrase`.
pub open spec fn is_first_phrase(entries: Seq<EntryView>, phrase: Seq<char>, k: int) -> bool {
    &&& 0 <= k < entries.len()
    &&& entries[k].phrase == phrase
    &&& forall|j: int| 0 <= j < k ==> #[trigger] entries[j].phrase != phrase
}

/// The first entry for `phrase`, if any.
pub open spec fn phrase_entry(entries: Seq<EntryView>, phrase: Seq<char>) -> Option<EntryView> {
    if exists|k: int| is_first_phrase(entries, phrase, k) {
        Some(entries[choose|k: int| is_first_phrase(entries, phrase, k)])
    } else {
        None
    }
}

/// The ledger after comparing the ready word at `i` with the dictionary, and
/// the entry to add when the dictionary has none for the word: an entry that
/// this learning made earlier (same note, enabled) is adopted; any other
/// entry for the word is respected and the word is rejected for good.
pub open spec fn resolved(s: StateView, i: int, entries: Seq<EntryView>) -> (StateView, Option<(Seq<char>, Seq<char>)>) {
    let w = s.learning[i];
    let marker = note_of(w.source, w.target);
    match phrase_entry(entries, w.target) {
        Some(e) => if e.note == Some(marker) && e.enabled {
            (
                StateView {
                    learning: s.learning.update(
                        i,
                        WordView {
                            dictionary_id: Some(e.id),
                            learned_at: Some(e.created_at),
                            status: "已自动加入词库"@,
                            ..w
                        },
                    ),
                    ..s
                },
                None,
            )
        } else {
            (
                StateView {
                    learning: s.learning.update(
                        i,
                        WordView {
                            blocked: true,
                            status: if e.enabled {
                                "词库已有该词"@
                            } else {
                                "该词已停用，不自动启用"@
                            },
                            ..w
                        },
                    ),
                    ..s
                },
                None,
            )
        },
        None => (s, Some((w.target, marker))),
    }
}

/// The ledger once the dictionary answered the request to add the word at
/// `i`: the new entry is remembered, or, when the dictionary already had the
/// word, the word is rejected for good.
pub open spec fn settled(s: StateView, i: int, added: Option<EntryView>) -> StateView {
    let w = s.learning[i];
    match added {
        Some(e) => StateView {
            learning: s.learning.update(
                i,
                WordView {
                    dictionary_id: Some(e.id),
                    learned_at: Some(e.created_at),
                    status: "已自动加入词库"@,
                    ..w
                },
            ),
            ..s
        },
        None => StateView {
            learning: s.learning.update(i, WordView { blocked: true, status: "词库已有该词"@, ..w }),
            ..s
        },
    }
}

/// The ledger after the user rejects the correction `source → target`, and
/// the position of its word; none when the correction is not being learned.
pub open spec fn undone(s: StateView, source: Seq<char>, target: Seq<char>) -> Option<(StateView, int)> {
    match word_position(s.learning, source, target) {
        Some(i) => Some((
            StateView {
                learning: s.learning.update(
                    i,
                    WordView { blocked: true, status: "已忽略，不再自动学习此纠词"@, ..s.learning[i] },
                ),
                ..s
            },
            i,
        )),
        None => None,
    }
}

/// The dictionary holds the entry `id` for `phrase` with the learning note
/// `marker`, i.e. an entry that automatic learning added.
pub open spec fn owns_entry(entries: Seq<EntryView>, id: Seq<char>, phrase: Seq<char>, marker: Seq<char>) -> bool {
    exists|k: int|
        0 <= k < entries.len() && #[trigger] entries[k].id == id && entries[k].phrase == phrase
            && entries[k].note == Some(marker)
}

/// `k` is the first position of the entry `id`.
pub open spec fn is_first_id(entries: Seq<EntryView>, id: Seq<char>, k: int) -> bool {
    &&& 0 <= k < entries.len()
    &&& entries[k].id == id
    &&& forall|j: int| 0 <= j < k ==> #[trigger] entries[j].id != id
}

/// `w` with the time its dictionary entry was created, when that was missing
/// and the entry is known.
pub open spec fn backfilled_word(w: WordView, entries: Seq<EntryView>) -> WordView {
    match w.dictionary_id {
        Some(id) => if w.learned_at is None && exists|k: int| is_first_id(entries, id, k) {
            WordView {
                learned_at: Some(entries[choose|k: int| is_first_id(entries, id, k)].created_at),
                ..w
            }
        } else {
            w
        },
        None => w,
    }
}

/// Whether [`backfilled_word`] changes `w`.
pub open spec fn needs_backfill(w: WordView, entries: Seq<EntryView>) -> bool {
    match w.dictionary_id {
        Some(id) => w.learned_at is None && exists|k: int| is_first_id(entries, id, k),
        None => false,
    }
}

/// Only a word with at least two agreeing sessions, neither rejected nor
/// already in the dictionary, is ever taken to the dictionary.
pub proof fn lemma_ready_needs_two_sessions(s: StateView, source: Seq<char>, target: Seq<char>)
    ensures
        tallied(s, source, target).1 matches Some(i) ==> {
            let w = tallied(s, source, target).0.learning[i];
            &&& 0 <= i < tallied(s, source, target).0.learning.len()
            &&& w.source == source && w.target == target
            &&& w.count >= 2
            &&& w.count == streak_of(source, target, votes(s.records))
            &&& !w.blocked
            &&& w.dictionary_id is None
        },
{
    if word_position(s.learning, source, target) is Some {
        let i = choose|i: int| is_first_word(s.learning, source, target, i);
    }
}

/// A rejected word stays rejected, and is never taken to the dictionary again.
pub proof fn lemma_rejected_stays_rejected(s: StateView, source: Seq<char>, target: Seq<char>, i: int)
    requires
        word_position(s.learning, source, target) == Some(i),
        s.learning[i].blocked,
    ensures
        tallied(s, source, target).1 is None,
        tallied(s, source, target).0.learning[i].blocked,
        tallied(s, source, target).0.learning.len() == s.learning.len(),
{
    let k = choose|k: int| is_first_word(s.learning, source, target, k);
}

/// Ending the observation of a session twice counts it once: the second time
/// changes nothing and yields the same correction.
pub proof fn lemma_session_counts_once(s: StateView, session: u64)
    requires
        finalized(s, session) is Some,
    ensures
        ({
            let (s1, pair) = finalized(s, session).unwrap();
            finalized(s1, session) == Some((s1, pair)) && votes(s1.records).len() <= s1.records.len()
        }),
{
    let i = choose|i: int| is_first_record(s.records, session, i);
    let (s1, pair) = finalized(s, session).unwrap();
    assert(is_first_record(s1.records, session, i)) by {
        assert forall|j: int| 0 <= j < i implies #[trigger] s1.records[j].session != session by {
            assert(s1.records[j] == s.records[j]);
        }
    }
    let k = choose|k: int| is_first_record(s1.records, session, k);
    assert(k == i) by {
        if k < i {
            assert(s1.records[k] == s.records[k]);
        }
    }
    assert(s1.records.update(i, RecordView { finalized: true, ..s1.records[i] }) =~= s1.records);
    lemma_votes_bound(s1.records);
}

/// There are never more corrections than finished records.
pub proof fn lemma_votes_bound(records: Seq<RecordView>)
    ensures
        votes(records).len() <= records.len(),
    decreases records.len(),
{
    if records.len() > 0 {
        lemma_votes_bound(records.drop_last());
    }
}

/// A dictionary word the learning did not add itself is never overwritten,
/// adopted or added again: the learned word is rejected instead.
pub proof fn lemma_existing_word_respected(s: StateView, i: int, entries: Seq<EntryView>)
    requires
        0 <= i < s.learning.len(),
        phrase_entry(entries, s.learning[i].target) matches Some(e) && !(e.note == Some(
            note_of(s.learning[i].source, s.learning[i].target),
        ) && e.enabled),
    ensures
        resolved(s, i, entries).1 is None,
        resolved(s, i, entries).0.learning[i].blocked,
        resolved(s, i, entries).0.learning[i].dictionary_id == s.learning[i].dictionary_id,
{
}

/// Ending an observation never touches the learning progress.
pub proof fn lemma_finalize_keeps_learning(s: StateView, session: u64)
    requires
        finalized(s, session) is Some,
    ensures
        finalized(s, session).unwrap().0.learning == s.learning,
{
}

/// The correction `source → target` is rejected: its word is blocked.
pub open spec fn rejected(words: Seq<WordView>, source: Seq<char>, target: Seq<char>) -> bool {
    word_position(words, source, target) matches Some(i) && words[i].blocked
}

/// `after` still rejects every correction that `before` rejects.
pub open spec fn keeps_rejections(before: Seq<WordView>, after: Seq<WordView>) -> bool {
    forall|source: Seq<char>, target: Seq<char>| rejected(before, source, target) ==> #[trigger] rejected(after, source, target)
}

/// The ledger once the dictionary entry of the word at `i` was removed.
pub open spec fn forgotten(s: StateView, i: int) -> StateView {
    StateView { learning: s.learning.update(i, WordView { dictionary_id: None, ..s.learning[i] }), ..s }
}

/// The ledger with the creation times of the dictionary `entries` filled in.
pub open spec fn backfilled(s: StateView, entries: Seq<EntryView>) -> StateView {
    StateView { learning: s.learning.map_values(|w: WordView| backfilled_word(w, entries)), ..s }
}

/// The ledger once the observation of `session` has ended and its correction
/// was processed in full: counted, compared with the dictionary `entries`
/// when ready, and, when the dictionary had no entry for it, added with the
/// dictionary answering `added`.
pub open spec fn learned(s: StateView, session: u64, entries: Seq<EntryView>, added: Option<EntryView>) -> StateView {
    match finalized(s, session) {
        None => s,
        Some((s1, pair)) => match pair {
            None => s1,
            Some((source, target)) => {
                let (s2, ready) = tallied(s1, source, target);
                match ready {
                    None => s2,
                    Some(i) => {
                        let (s3, request) = resolved(s2, i, entries);
                        match request {
                            None => s3,
                            Some(_) => settled(s3, i, added),
                        }
                    },
                }
            },
        }
    }
}

/// Ending the observation of `session` asks the dictionary about its correction.
pub open spec fn consults_dictionary(s: StateView, session: u64) -> bool {
    finalized(s, session) matches Some((s1, Some((source, target)))) && tallied(s1, source, target).1 is Some
}

/// The first position of a word is the only one.
proof fn lemma_first_word_unique(words: Seq<WordView>, source: Seq<char>, target: Seq<char>, i: int)
    requires
        is_first_word(words, source, target, i),
    ensures
        word_position(words, source, target) == Some(i),
{
    let k = choose|k: int| is_first_word(words, source, target, k);
    assert(k == i) by {
        if k < i {
        } else if k > i {
        }
    }
}

/// Changing a word but not its correction keeps every word where it is.
proof fn lemma_update_keeps_positions(words: Seq<WordView>, i: int, w: WordView, source: Seq<char>, target: Seq<char>)
    requires
        0 <= i < words.len(),
        w.source == words[i].source,
        w.target == words[i].target,
    ensures
        word_position(words.update(i, w), source, target) == word_position(words, source, target),
{
    let u = words.update(i, w);
    if word_position(words, source, target) is Some {
        let k = choose|k: int| is_first_word(words, source, target, k);
        assert(is_first_word(u, source, target, k)) by {
            assert forall|j: int| 0 <= j < k implies !(#[trigger] u[j].source == source && u[j].target == target) by {
                assert(!(words[j].source == source && words[j].target == target));
            }
        }
        lemma_first_word_unique(u, source, target, k);
    } else {
        if word_position(u, source, target) is Some {
            let k = choose|k: int| is_first_word(u, source, target, k);
            assert(is_first_word(words, source, target, k)) by {
                assert forall|j: int| 0 <= j < k implies !(#[trigger] words[j].source == source && words[j].target == target) by {
                    assert(!(u[j].source == source && u[j].target == target));
                }
            }
        }
    }
}

/// Changing a word but not its correction, and never unblocking it, keeps
/// every rejection.
proof fn lemma_update_keeps_rejections(words: Seq<WordView>, i: int, w: WordView)
    requires
        0 <= i < words.len(),
        w.source == words[i].source,
        w.target == words[i].target,
        words[i].blocked ==> w.blocked,
    ensures
        keeps_rejections(words, words.update(i, w)),
{
    assert forall|source: Seq<char>, target: Seq<char>| rejected(words, source, target) implies #[trigger] rejected(
        words.update(i, w),
        source,
        target,
    ) by {
        lemma_update_keeps_positions(words, i, w, source, target);
    }
}

/// Adding a new word in front keeps every rejection.
proof fn lemma_insert_keeps_rejections(words: Seq<WordView>, w: WordView)
    requires
        word_position(words, w.source, w.target) is None,
    ensures
        keeps_rejections(words, words.insert(0, w)),
        word_position(words.insert(0, w), w.source, w.target) == Some(0int),
{
    let n = words.insert(0, w);
    assert(is_first_word(n, w.source, w.target, 0));
    lemma_first_word_unique(n, w.source, w.target, 0);
    assert forall|source: Seq<char>, target: Seq<char>| rejected(words, source, target) implies #[trigger] rejected(
        n,
        source,
        target,
    ) by {
        let k = choose|k: int| is_first_word(words, source, target, k);
        assert(!(source == w.source && target == w.target));
        assert(is_first_word(n, source, target, k + 1)) by {
            assert forall|j: int| 0 <= j < k + 1 implies !(#[trigger] n[j].source == source && n[j].target == target) by {
                if j > 0 {
                    assert(n[j] == words[j - 1]);
                }
            }
        }
        lemma_first_word_unique(n, source, target, k + 1);
    }
}

/// Keeping rejections is transitive.
pub proof fn lemma_keeps_rejections_transitive(a: Seq<WordView>, b: Seq<WordView>, c: Seq<WordView>)
    requires
        keeps_rejections(a, b),
        keeps_rejections(b, c),
    ensures
        keeps_rejections(a, c),
{
    assert forall|source: Seq<char>, target: Seq<char>| rejected(a, source, target) implies #[trigger] rejected(
        c,
        source,
        target,
    ) by {
        assert(rejected(b, source, target));
    }
}

/// What counting a correction leaves of its word: it sits at the first
/// position of the correction, counts the agreeing sessions, and it is ready
/// exactly when it is neither rejected nor in the dictionary and counts at
/// least two; otherwise a word still being observed shows its progress.
proof fn lemma_tallied_word(s: StateView, source: Seq<char>, target: Seq<char>) -> (p: int)
    ensures
        ({
            let (t, ready) = tallied(s, source, target);
            let w = t.learning[p];
            &&& word_position(t.learning, source, target) == Some(p)
            &&& 0 <= p < t.learning.len()
            &&& w.count == streak_of(source, target, votes(s.records))
            &&& t.records == s.records
            &&& t.enabled == s.enabled
            &&& keeps_rejections(s.learning, t.learning)
            &&& match ready {
                Some(i) => i == p && !w.blocked && w.dictionary_id is None && w.count >= 2,
                None => w.blocked || w.dictionary_id is Some || (w.count < 2 && w.status == observing_status(w.count)),
            }
        }),
{
    let count = streak_of(source, target, votes(s.records));
    match word_position(s.learning, source, target) {
        Some(i) => {
            let k = choose|k: int| is_first_word(s.learning, source, target, k);
            let w = WordView { count, ..s.learning[i] };
            lemma_update_keeps_rejections(s.learning, i, w);
            lemma_update_keeps_positions(s.learning, i, w, source, target);
            let w2 = WordView { status: observing_status(count), ..w };
            lemma_update_keeps_rejections(s.learning, i, w2);
            lemma_update_keeps_positions(s.learning, i, w2, source, target);
            i
        },
        None => {
            let nw = WordView {
                source,
                target,
                count,
                status: "观察中（1/2）"@,
                dictionary_id: None,
                blocked: false,
                learned_at: None,
            };
            let words = s.learning.insert(0, nw);
            lemma_insert_keeps_rejections(s.learning, nw);
            let w = WordView { count, ..words[0] };
            lemma_update_keeps_rejections(words, 0, w);
            lemma_update_keeps_positions(words, 0, w, source, target);
            lemma_keeps_rejections_transitive(s.learning, words, words.update(0, w));
            let w2 = WordView { status: observing_status(count), ..w };
            lemma_update_keeps_rejections(words, 0, w2);
            lemma_update_keeps_positions(words, 0, w2, source, target);
            lemma_keeps_rejections_transitive(s.learning, words, words.update(0, w2));
            0
        },
    }
}

/// Counting a correction keeps every rejection.
pub proof fn lemma_tally_keeps_rejections(s: StateView, source: Seq<char>, target: Seq<char>)
    ensures
        keeps_rejections(s.learning, tallied(s, source, target).0.learning),
{
    lemma_tallied_word(s, source, target);
}

/// Consulting the dictionary about the word at `i`, recording its answer, and
/// forgetting its entry keep every rejection.
pub proof fn lemma_dictionary_steps_keep_rejections(s: StateView, i: int, entries: Seq<EntryView>, added: Option<EntryView>)
    requires
        0 <= i < s.learning.len(),
    ensures
        keeps_rejections(s.learning, resolved(s, i, entries).0.learning),
        keeps_rejections(s.learning, settled(s, i, added).learning),
        keeps_rejections(s.learning, forgotten(s, i).learning),
{
    let w = s.learning[i];
    match phrase_entry(entries, w.target) {
        Some(e) => {
            lemma_update_keeps_rejections(
                s.learning,
                i,
                WordView { dictionary_id: Some(e.id), learned_at: Some(e.created_at), status: "已自动加入词库"@, ..w },
            );
            lemma_update_keeps_rejections(
                s.learning,
                i,
                WordView {
                    blocked: true,
                    status: if e.enabled {
                        "词库已有该词"@
                    } else {
                        "该词已停用，不自动启用"@
                    },
                    ..w
                },
            );
        },
        None => {
            assert(resolved(s, i, entries).0.learning == s.learning);
            assert(keeps_rejections(s.learning, s.learning));
        },
    }
    match added {
        Some(e) => lemma_update_keeps_rejections(
            s.learning,
            i,
            WordView { dictionary_id: Some(e.id), learned_at: Some(e.created_at), status: "已自动加入词库"@, ..w },
        ),
        None => lemma_update_keeps_rejections(s.learning, i, WordView { blocked: true, status: "词库已有该词"@, ..w }),
    }
    lemma_update_keeps_rejections(s.learning, i, WordView { dictionary_id: None, ..w });
}

/// Rejecting a correction keeps every other rejection, and rejects it.
pub proof fn lemma_undo_keeps_rejections(s: StateView, source: Seq<char>, target: Seq<char>)
    requires
        undone(s, source, target) is Some,
    ensures
        keeps_rejections(s.learning, undone(s, source, target).unwrap().0.learning),
        rejected(undone(s, source, target).unwrap().0.learning, source, target),
{
    let i = choose|i: int| is_first_word(s.learning, source, target, i);
    let w = WordView { blocked: true, status: "已忽略，不再自动学习此纠词"@, ..s.learning[i] };
    lemma_update_keeps_rejections(s.learning, i, w);
    lemma_update_keeps_positions(s.learning, i, w, source, target);
}

/// Filling in creation times keeps every rejection.
pub proof fn lemma_backfill_keeps_rejections(s: StateView, entries: Seq<EntryView>)
    ensures
        keeps_rejections(s.learning, backfilled(s, entries).learning),
{
    let b = backfilled(s, entries).learning;
    assert forall|source: Seq<char>, target: Seq<char>| rejected(s.learning, source, target) implies #[trigger] rejected(
        b,
        source,
        target,
    ) by {
        let k = choose|k: int| is_first_word(s.learning, source, target, k);
        assert(is_first_word(b, source, target, k)) by {
            assert forall|j: int| 0 <= j < k implies !(#[trigger] b[j].source == source && b[j].target == target) by {
                assert(!(s.learning[j].source == source && s.learning[j].target == target));
            }
        }
        lemma_first_word_unique(b, source, target, k);
    }
}

/// Steps that leave the learning list alone keep every rejection: ending an
/// observation, recording an edit, restoring the ledger from storage.
pub proof fn lemma_ledger_steps_keep_rejections(
    s: StateView,
    session: u64,
    app: Seq<char>,
    before: Seq<char>,
    after: Seq<char>,
    supported: bool,
)
    ensures
        finalized(s, session) matches Some((s1, _)) ==> keeps_rejections(s.learning, s1.learning),
        keeps_rejections(s.learning, recorded(s, session, app, before, after).learning),
        keeps_rejections(s.learning, restored(s, supported).learning),
{
}

/// Once the user rejects a correction, no later session teaches it again:
/// whatever the ledger goes through afterwards, as long as its learning list
/// keeps the rejections it had (every learning step does, see the lemmas
/// above, and a restart loads the saved list), counting the correction never
/// takes it to the dictionary.
pub proof fn lemma_undo_prevents_relearning(s: StateView, source: Seq<char>, target: Seq<char>, later: StateView)
    requires
        undone(s, source, target) is Some,
        keeps_rejections(undone(s, source, target).unwrap().0.learning, later.learning),
    ensures
        tallied(later, source, target).1 is None,
{
    lemma_undo_keeps_rejections(s, source, target);
    assert(rejected(later.learning, source, target));
    let i = word_position(later.learning, source, target).unwrap();
    lemma_rejected_stays_rejected(later, source, target, i);
}

/// Ending an observation depends only on the switch and the records.
proof fn lemma_finalized_same_records(a: StateView, b: StateView, session: u64)
    requires
        a.enabled == b.enabled,
        a.records == b.records,
        finalized(a, session) matches Some((a1, _)) && a1 == a,
    ensures
        finalized(b, session) == Some((b, finalized(a, session).unwrap().1)),
{
    let i = choose|i: int| is_first_record(a.records, session, i);
    assert(b.records.update(i, RecordView { finalized: true, ..b.records[i] }) == b.records);
}

/// Counting again a correction whose word already shows the current count,
/// and that is rejected, in the dictionary or still being observed, changes
/// nothing and is not ready.
proof fn lemma_retally_settled(s: StateView, source: Seq<char>, target: Seq<char>, p: int)
    requires
        word_position(s.learning, source, target) == Some(p),
        0 <= p < s.learning.len(),
        s.learning[p].count == streak_of(source, target, votes(s.records)),
        s.learning[p].blocked || s.learning[p].dictionary_id is Some || (s.learning[p].count < 2
            && s.learning[p].status == observing_status(s.learning[p].count)),
    ensures
        tallied(s, source, target) == (s, Option::<int>::None),
{
    let w = WordView { count: streak_of(source, target, votes(s.records)), ..s.learning[p] };
    assert(w == s.learning[p]);
    assert(s.learning.update(p, w) =~= s.learning);
    if !(w.blocked || w.dictionary_id is Some) {
        assert(s.learning.update(p, WordView { status: observing_status(w.count), ..w }) =~= s.learning);
    }
}

/// Consulting the dictionary about the ready word at `p`, and recording its
/// answer when an entry was requested, leaves the word where it was, with
/// its count, and rejected or in the dictionary.
proof fn lemma_dictionary_settles_word(s: StateView, p: int, entries: Seq<EntryView>, added: Option<EntryView>, source: Seq<char>, target: Seq<char>)
    requires
        0 <= p < s.learning.len(),
    ensures
        ({
            let (s3, request) = resolved(s, p, entries);
            let s4 = match request {
                None => s3,
                Some(_) => settled(s3, p, added),
            };
            &&& s4.records == s.records
            &&& s4.enabled == s.enabled
            &&& s4.learning.len() == s.learning.len()
            &&& word_position(s4.learning, source, target) == word_position(s.learning, source, target)
            &&& s4.learning[p].count == s.learning[p].count
            &&& s4.learning[p].blocked || s4.learning[p].dictionary_id is Some
        }),
{
    let w = s.learning[p];
    match phrase_entry(entries, w.target) {
        Some(e) => {
            lemma_update_keeps_positions(
                s.learning,
                p,
                WordView { dictionary_id: Some(e.id), learned_at: Some(e.created_at), status: "已自动加入词库"@, ..w },
                source,
                target,
            );
            lemma_update_keeps_positions(
                s.learning,
                p,
                WordView {
                    blocked: true,
                    status: if e.enabled {
                        "词库已有该词"@
                    } else {
                        "该词已停用，不自动启用"@
                    },
                    ..w
                },
                source,
                target,
            );
        },
        None => {
            match added {
                Some(e) => lemma_update_keeps_positions(
                    s.learning,
                    p,
                    WordView { dictionary_id: Some(e.id), learned_at: Some(e.created_at), status: "已自动加入词库"@, ..w },
                    source,
                    target,
                ),
                None => lemma_update_keeps_positions(
                    s.learning,
                    p,
                    WordView { blocked: true, status: "词库已有该词"@, ..w },
                    source,
                    target,
                ),
            }
        },
    }
}

/// Ending the observation of a session again, once it was processed in full,
/// changes nothing, neither the records nor the learning list, and asks the
/// dictionary nothing, whatever the dictionary holds by then: one session
/// never counts twice.
pub proof fn lemma_second_finalization_changes_nothing(
    s: StateView,
    session: u64,
    entries: Seq<EntryView>,
    added: Option<EntryView>,
    entries2: Seq<EntryView>,
    added2: Option<EntryView>,
)
    ensures
        learned(learned(s, session, entries, added), session, entries2, added2) == learned(s, session, entries, added),
        !consults_dictionary(learned(s, session, entries, added), session),
{
    let l = learned(s, session, entries, added);
    if let Some((s1, pair)) = finalized(s, session) {
        lemma_session_counts_once(s, session);
        match pair {
            None => {
                lemma_finalized_same_records(s1, l, session);
            },
            Some((source, target)) => {
                let p = lemma_tallied_word(s1, source, target);
                let (s2, ready) = tallied(s1, source, target);
                match ready {
                    None => {},
                    Some(i) => {
                        lemma_dictionary_settles_word(s2, i, entries, added, source, target);
                    },
                }
                lemma_finalized_same_records(s1, l, session);
                lemma_retally_settled(l, source, target, p);
            },
        }
    }
}

/// A record whose observation has not ended adds no vote, wherever it stands.
proof fn lemma_votes_skip_unfinished(records: Seq<RecordView>, i: int, r: RecordView)
    requires
        0 <= i <= records.len(),
        !r.finalized,
    ensures
        votes(records.insert(i, r)) == votes(records),
    decreases records.len(),
{
    let ins = records.insert(i, r);
    if i == records.len() {
        assert(ins.drop_last() =~= records);
    } else {
        assert(ins.drop_last() =~= records.drop_last().insert(i, r));
        assert(ins.last() == records.last());
        lemma_votes_skip_unfinished(records.drop_last(), i, r);
    }
}

/// Only sessions whose observation has ended vote: adding a record that is
/// not finished, wherever it stands and whatever edit it holds, changes
/// neither the count nor the readiness that counting any correction gives.
pub proof fn lemma_unfinished_records_do_not_vote(
    s: StateView,
    i: int,
    r: RecordView,
    source: Seq<char>,
    target: Seq<char>,
)
    requires
        0 <= i <= s.records.len(),
        !r.finalized,
    ensures
        tallied(StateView { records: s.records.insert(i, r), ..s }, source, target).0.learning
            == tallied(s, source, target).0.learning,
        tallied(StateView { records: s.records.insert(i, r), ..s }, source, target).1 == tallied(
            s,
            source,
            target,
        ).1,
{
    lemma_votes_skip_unfinished(s.records, i, r);
}

/// The note that marks a dictionary entry as added by automatic learning of
/// `source → target`.
pub fn learning_note(source: &str, target: &str) -> (r: String)
    ensures
        r@ == note_of(source@, target@),
{
    let mut r = literal("OpenLess 自动学习：");
    r.append(source);
    r.append(" → ");
    r.append(target);
    r.append("（两个独立听写记录）");
    r
}

/// The first entry for `phrase`, if any.
fn find_phrase(entries: &[VocabularyEntry], phrase: &String) -> (r: Option<usize>)
    ensures
        match r {
            Some(k) => is_first_phrase(entries_view(entries@), phrase@, k as int),
            None => forall|k: int| 0 <= k < entries@.len() ==> #[trigger] entries@[k].phrase@ != phrase@,
        },
{
    let ghost ev = entries_view(entries@);
    let mut k: usize = 0;
    while k < entries.len()
        invariant
            k <= entries.len(),
            ev == entries_view(entries@),
            forall|j: int| 0 <= j < k ==> #[trigger] ev[j].phrase != phrase@,
        decreases entries.len() - k,
    {
        if entries[k].phrase == *phrase {
            return Some(k);
        }
        k += 1;
    }
    assert forall|j: int| 0 <= j < entries@.len() implies #[trigger] entries@[j].phrase@ != phrase@ by {
        assert(ev[j].phrase == entries@[j].phrase@);
    }
    None
}

/// Whether two optional strings hold the same text.
fn same_opt(a: &Option<String>, b: &Option<String>) -> (r: bool)
    ensures
        r == (opt_view(*a) == opt_view(*b)),
{
    match (a, b) {
        (Some(x), Some(y)) => *x == *y,
        (None, None) => true,
        _ => false,
    }
}

impl CaptureState {
    /// Compares the ready word at `index` with the dictionary `entries` (see
    /// [`resolved`]); returns the phrase and note to add when the dictionary
    /// has no entry for the word.
    pub fn resolve(&mut self, index: usize, entries: &[VocabularyEntry]) -> (r: Option<(String, String)>)
        requires
            index < old(self).learning.len(),
        ensures
            final(self)@ == resolved(old(self)@, index as int, entries_view(entries@)).0,
            pair_view(r) == resolved(old(self)@, index as int, entries_view(entries@)).1,
    {
        let ghost s0 = self@;
        let ghost ev = entries_view(entries@);
        let marker = learning_note(self.learning[index].source.as_str(), self.learning[index].target.as_str());
        let found = find_phrase(entries, &self.learning[index].target);
        match found {
            Some(k) => {
                proof {
                    let c = choose|c: int| is_first_phrase(ev, s0.learning[index as int].target, c);
                    assert(c == k as int) by {
                        if c < k {
                            assert(ev[c].phrase != s0.learning[index as int].target);
                        } else if c > k {
                            assert(ev[k as int].phrase != s0.learning[index as int].target);
                        }
                    }
                }
                let e = &entries[k];
                if same_opt(&e.note, &Some(marker)) && e.enabled {
                    self.learning[index].dictionary_id = Some(e.id.clone());
                    self.learning[index].learned_at = Some(e.created_at.clone());
                    self.learning[index].status = literal("已自动加入词库");
                } else {
                    self.learning[index].blocked = true;
                    self.learning[index].status = if e.enabled {
                        literal("词库已有该词")
                    } else {
                        literal("该词已停用，不自动启用")
                    };
                }
                assert(self@.learning =~= resolved(s0, index as int, ev).0.learning);
                None
            },
            None => {
                assert(!exists|c: int| is_first_phrase(ev, s0.learning[index as int].target, c));
                Some((self.learning[index].target.clone(), marker))
            },
        }
    }

    /// Records the dictionary's answer to the request to add the word at
    /// `index` (see [`settled`]).
    pub fn settle_added(&mut self, index: usize, added: Option<VocabularyEntry>)
        requires
            index < old(self).learning.len(),
        ensures
            final(self)@ == settled(old(self)@, index as int, entry_opt_view(added)),
    {
        let ghost s0 = self@;
        let ghost av = entry_opt_view(added);
        match added {
            Some(e) => {
                self.learning[index].dictionary_id = Some(e.id);
                self.learning[index].learned_at = Some(e.created_at);
                self.learning[index].status = literal("已自动加入词库");
            },
            None => {
                self.learning[index].status = literal("词库已有该词");
                self.learning[index].blocked = true;
            },
        }
        assert(self@.learning =~= settled(s0, index as int, av).learning);
    }

    /// Reports that automatic learning could not finish.
    pub fn note_learning_failure(&mut self, error: &str)
        ensures
            final(self)@ == (StateView { status: "自动学习未完成："@ + error@, ..old(self)@ }),
    {
        let mut m = literal("自动学习未完成：");
        m.append(error);
        self.status = m;
    }

    /// Rejects the correction `source → target` for good (see [`undone`]);
    /// returns the position of its word, or the error shown when the
    /// correction is not being learned.
    pub fn begin_undo(&mut self, source: &str, target: &str) -> (r: Result<usize, String>)
        ensures
            match undone(old(self)@, source@, target@) {
                Some((s, i)) => final(self)@ == s && r == Ok::<usize, String>(i as usize),
                None => final(self)@ == old(self)@ && (r matches Err(e) && e@ == "未找到学习记录"@),
            },
    {
        let src = String::from_str(source);
        let tgt = String::from_str(target);
        match self.find_word(&src, &tgt) {
            Some(i) => {
                let ghost s0 = self@;
                self.learning[i].blocked = true;
                self.learning[i].status = literal("已忽略，不再自动学习此纠词");
                assert(self@.learning =~= undone(s0, source@, target@).unwrap().0.learning);
                Ok(i)
            },
            None => Err(literal("未找到学习记录")),
        }
    }

    /// Whether the dictionary `entries` still hold the entry that automatic
    /// learning added for the word at `index` (same id, phrase and note).
    pub fn owns_entry(&self, index: usize, entries: &[VocabularyEntry]) -> (r: bool)
        requires
            index < self.learning.len(),
        ensures
            r == match self@.learning[index as int].dictionary_id {
                Some(id) => owns_entry(
                    entries_view(entries@),
                    id,
                    self@.learning[index as int].target,
                    note_of(self@.learning[index as int].source, self@.learning[index as int].target),
                ),
                None => false,
            },
    {
        let ghost ev = entries_view(entries@);
        let w = &self.learning[index];
        assert(self@.learning[index as int] == w@);
        match &w.dictionary_id {
            Some(id) => {
                let note = learning_note(w.source.as_str(), w.target.as_str());
                let ghost nv = note@;
                let marker = Some(note);
                assert(opt_view(marker) == Some(nv));
                let mut k: usize = 0;
                while k < entries.len()
                    invariant
                        k <= entries.len(),
                        ev == entries_view(entries@),
                        opt_view(marker) == Some(nv),
                        nv == note_of(w@.source, w@.target),
                        w@.dictionary_id == Some(id@),
                        self@.learning[index as int] == w@,
                        forall|j: int|
                            0 <= j < k ==> !(#[trigger] ev[j].id == id@ && ev[j].phrase == w.target@
                                && ev[j].note == Some(nv)),
                    decreases entries.len() - k,
                {
                    if entries[k].id == *id && entries[k].phrase == w.target && same_opt(&entries[k].note, &marker) {
                        assert(ev[k as int].id == id@ && ev[k as int].phrase == w.target@ && ev[k as int].note == Some(nv));
                        return true;
                    }
                    k += 1;
                }
                false
            },
            None => false,
        }
    }

    /// Forgets the dictionary entry of the word at `index` once it was removed.
    pub fn forget_dictionary_entry(&mut self, index: usize)
        requires
            index < old(self).learning.len(),
        ensures
            final(self)@ == forgotten(old(self)@, index as int),
    {
        let ghost s0 = self@;
        self.learning[index].dictionary_id = None;
        assert(self@.learning =~= s0.learning.update(
            index as int,
            WordView { dictionary_id: None, ..s0.learning[index as int] },
        ));
    }

    /// Fills in, from the dictionary `entries`, when each learned word was
    /// added, where that is missing; returns whether anything changed.
    pub fn backfill_learned_at(&mut self, entries: &[VocabularyEntry]) -> (r: bool)
        ensures
            final(self)@ == backfilled(old(self)@, entries_view(entries@)),
            r == exists|i: int| 0 <= i < old(self)@.learning.len() && #[trigger] needs_backfill(old(self)@.learning[i], entries_view(entries@)),
    {
        let ghost s0 = self@;
        let ghost ev = entries_view(entries@);
        let mut changed = false;
        let mut i: usize = 0;
        while i < self.learning.len()
            invariant
                i <= self.learning.len() == s0.learning.len(),
                ev == entries_view(entries@),
                self@ == (StateView { learning: self@.learning, ..s0 }),
                forall|j: int| 0 <= j < i ==> #[trigger] self@.learning[j] == backfilled_word(s0.learning[j], ev),
                forall|j: int| i <= j < s0.learning.len() ==> #[trigger] self@.learning[j] == s0.learning[j],
                changed == exists|j: int| 0 <= j < i && #[trigger] needs_backfill(s0.learning[j], ev),
            decreases s0.learning.len() - i,
        {
            assert(self@.learning[i as int] == s0.learning[i as int]);
            let ghost before_step = self@.learning;
            if self.learning[i].learned_at.is_none() {
                if let Some(id) = &self.learning[i].dictionary_id {
                    let mut k: usize = 0;
                    while k < entries.len() && entries[k].id != *id
                        invariant
                            k <= entries.len(),
                            ev == entries_view(entries@),
                            forall|j: int| 0 <= j < k ==> #[trigger] ev[j].id != id@,
                        decreases entries.len() - k,
                    {
                        k += 1;
                    }
                    if k < entries.len() {
                        proof {
                            assert(is_first_id(ev, id@, k as int));
                            let c = choose|c: int| is_first_id(ev, id@, c);
                            assert(c == k as int) by {
                                if c < k {
                                } else if c > k {
                                    assert(ev[k as int].id == id@);
                                }
                            }
                        }
                        let at = entries[k].created_at.clone();
                        self.learning[i].learned_at = Some(at);
                        assert(needs_backfill(s0.learning[i as int], ev));
                        assert(self@.learning =~= before_step.update(
                            i as int,
                            backfilled_word(s0.learning[i as int], ev),
                        ));
                        changed = true;
                    } else {
                        assert(!exists|c: int| is_first_id(ev, id@, c));
                    }
                }
            }
            assert(self@.learning[i as int] == backfilled_word(s0.learning[i as int], ev));
            i += 1;
        }
        assert(self@.learning =~= s0.learning.map_values(|w: WordView| backfilled_word(w, ev)));
        changed
    }

    /// Reports that saving the backfilled times failed.
    pub fn note_backfill_failure(&mut self, error: &str)
        ensures
            final(self)@ == (StateView { status: "入库时间保存失败："@ + error@, ..old(self)@ }),
    {
        let mut m = literal("入库时间保存失败：");
        m.append(error);
        self.status = m;
    }
}
} // verus!

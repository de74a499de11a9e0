use openless::capture::{storage_guard, CaptureState, Record};
use openless::learning::{learning_note, Tally, VocabularyEntry};

/// An in-memory dictionary standing in for the shared vocabulary.
struct Dictionary {
    entries: Vec<VocabularyEntry>,
    next: u32,
}

impl Dictionary {
    fn new() -> Self {
        Dictionary { entries: Vec::new(), next: 0 }
    }

    fn add(&mut self, phrase: &str, note: Option<String>) -> VocabularyEntry {
        self.next += 1;
        let e = VocabularyEntry {
            id: format!("id-{}", self.next),
            phrase: phrase.to_string(),
            note,
            enabled: true,
            created_at: format!("t{}", self.next),
        };
        self.entries.push(VocabularyEntry {
            id: e.id.clone(),
            phrase: e.phrase.clone(),
            note: e.note.clone(),
            enabled: e.enabled,
            created_at: e.created_at.clone(),
        });
        e
    }

    fn add_if_absent(&mut self, phrase: &str, note: String) -> Option<VocabularyEntry> {
        if self.entries.iter().any(|e| e.phrase == phrase) {
            None
        } else {
            Some(self.add(phrase, Some(note)))
        }
    }
}

fn finalize(s: &mut CaptureState, dict: &mut Dictionary, session: u64) {
    let Some(pair) = s.finalize_session(session) else { return };
    let Some((source, target)) = pair else { return };
    let Tally::Ready(i) = s.tally(source, target) else { return };
    if let Some((phrase, note)) = s.resolve(i, &dict.entries) {
        let added = dict.add_if_absent(&phrase, note);
        s.settle_added(i, added);
    }
}

fn capture(s: &mut CaptureState, dict: &mut Dictionary, session: u64, before: &str, after: &str) {
    s.records.retain(|r| r.session != session);
    s.records.insert(
        0,
        Record {
            session,
            app: "fixture".into(),
            before: before.into(),
            after: after.into(),
            finalized: false,
        },
    );
    finalize(s, dict, session);
}

fn undo(s: &mut CaptureState, dict: &mut Dictionary, source: &str, target: &str) -> Result<(), String> {
    let i = s.begin_undo(source, target)?;
    if let Some(id) = s.learning[i].dictionary_id.clone() {
        if s.owns_entry(i, &dict.entries) {
            dict.entries.retain(|e| e.id != id);
        }
        s.forget_dictionary_entry(i);
    }
    Ok(())
}

#[test]
fn separate_sessions_learn_and_undo_sticks() {
    let mut s = CaptureState::initial(true);
    let mut dict = Dictionary::new();
    capture(&mut s, &mut dict, 1, "青语", "轻羽");
    assert!(dict.entries.is_empty());
    assert_eq!(s.learning[0].status, "观察中（1/2）");
    capture(&mut s, &mut dict, 1, "青语", "轻羽");
    assert!(dict.entries.is_empty(), "one session must never count twice");
    let (restored, next) = s.restore(true);
    s = restored;
    assert_eq!(s.records.len(), 1);
    assert_eq!(next, 2);
    capture(&mut s, &mut dict, 2, "青语", "轻羽");
    assert_eq!(dict.entries.len(), 1);
    assert_eq!(dict.entries[0].phrase, "轻羽");
    assert_eq!(s.learning[0].status, "已自动加入词库");
    assert_eq!(s.learning[0].count, 2);
    assert_eq!(s.learning[0].learned_at.as_deref(), Some("t1"));
    capture(&mut s, &mut dict, 3, "青语", "轻羽");
    assert_eq!(dict.entries.len(), 1);
    undo(&mut s, &mut dict, "青语", "轻羽").unwrap();
    assert!(dict.entries.is_empty());
    assert!(s.learning[0].blocked);
    assert_eq!(s.learning[0].status, "已忽略，不再自动学习此纠词");
    let (restored, _) = s.restore(true);
    s = restored;
    capture(&mut s, &mut dict, 4, "青语", "轻羽");
    capture(&mut s, &mut dict, 5, "青语", "轻羽");
    assert!(dict.entries.is_empty(), "undo must survive restart and prevent relearning");
}

#[test]
fn existing_words_are_preserved() {
    let mut s = CaptureState::initial(true);
    let mut dict = Dictionary::new();
    let existing = dict.add("清雨", Some("manual".into()));
    capture(&mut s, &mut dict, 6, "青语", "清雨");
    capture(&mut s, &mut dict, 7, "青语", "清雨");
    assert!(s.learning[0].blocked);
    assert_eq!(s.learning[0].status, "词库已有该词");
    assert!(s.learning[0].dictionary_id.is_none());
    undo(&mut s, &mut dict, "青语", "清雨").unwrap();
    assert!(dict.entries.iter().any(|v| v.id == existing.id));
}

#[test]
fn disabled_word_is_not_enabled() {
    let mut s = CaptureState::initial(true);
    let mut dict = Dictionary::new();
    dict.add("清雨", None);
    dict.entries[0].enabled = false;
    capture(&mut s, &mut dict, 1, "青语", "清雨");
    capture(&mut s, &mut dict, 2, "青语", "清雨");
    assert!(s.learning[0].blocked);
    assert_eq!(s.learning[0].status, "该词已停用，不自动启用");
}

#[test]
fn own_entry_is_recovered() {
    let mut s = CaptureState::initial(true);
    let mut dict = Dictionary::new();
    dict.add("轻羽", Some(learning_note("青语", "轻羽")));
    capture(&mut s, &mut dict, 1, "青语", "轻羽");
    capture(&mut s, &mut dict, 2, "青语", "轻羽");
    assert_eq!(dict.entries.len(), 1);
    assert_eq!(s.learning[0].dictionary_id.as_deref(), Some("id-1"));
    assert_eq!(s.learning[0].status, "已自动加入词库");
}

#[test]
fn learning_note_names_both_words() {
    assert_eq!(
        learning_note("青语", "轻羽"),
        "OpenLess 自动学习：青语 → 轻羽（两个独立听写记录）"
    );
}

#[test]
fn conflicting_session_resets_the_count() {
    let mut s = CaptureState::initial(true);
    let mut dict = Dictionary::new();
    capture(&mut s, &mut dict, 1, "青语", "轻羽");
    capture(&mut s, &mut dict, 2, "轻羽", "青语");
    capture(&mut s, &mut dict, 3, "青语", "轻羽");
    assert!(dict.entries.is_empty());
    let w = s.learning.iter().find(|w| w.source == "青语").unwrap();
    assert_eq!(w.count, 1);
    assert_eq!(w.status, "观察中（1/2）");
}

#[test]
fn disabled_capture_finalizes_nothing() {
    let mut s = CaptureState::initial(false);
    s.records.push(Record {
        session: 1,
        app: "a".into(),
        before: "青语".into(),
        after: "轻羽".into(),
        finalized: false,
    });
    assert!(s.finalize_session(1).is_none());
    assert!(!s.records[0].finalized);
}

#[test]
fn unknown_session_finalizes_nothing() {
    let mut s = CaptureState::initial(true);
    assert!(s.finalize_session(9).is_none());
}

#[test]
fn undo_of_unknown_word_fails() {
    let mut s = CaptureState::initial(true);
    assert_eq!(s.begin_undo("a", "b"), Err("未找到学习记录".to_string()));
}

#[test]
fn backfill_fills_missing_times() {
    let mut s = CaptureState::initial(true);
    let mut dict = Dictionary::new();
    capture(&mut s, &mut dict, 1, "青语", "轻羽");
    capture(&mut s, &mut dict, 2, "青语", "轻羽");
    s.learning[0].learned_at = None;
    assert!(s.backfill_learned_at(&dict.entries));
    assert_eq!(s.learning[0].learned_at.as_deref(), Some("t1"));
    assert!(!s.backfill_learned_at(&dict.entries));
}

#[test]
fn corrupt_storage_stops_learning_and_saving() {
    let s = CaptureState::initial(true);
    let failed = s.load_failed("broken");
    assert!(!failed.enabled);
    assert_eq!(failed.status, "学习记录读取失败，已停止自动学习并保留原文件：broken");
    assert_eq!(storage_guard(false), Err("学习记录不可用，未覆盖原文件".to_string()));
    assert_eq!(storage_guard(true), Ok(()));
}

#[test]
fn failures_are_reported() {
    let mut s = CaptureState::initial(true);
    s.note_learning_failure("词库尚未就绪");
    assert_eq!(s.status, "自动学习未完成：词库尚未就绪");
    s.note_backfill_failure("disk");
    assert_eq!(s.status, "入库时间保存失败：disk");
    s.note_save_failure("full");
    assert_eq!(s.status, "记录保存失败：full");
}

#[test]
fn finalizing_a_learned_session_again_changes_nothing() {
    let mut s = CaptureState::initial(true);
    let mut dict = Dictionary::new();
    capture(&mut s, &mut dict, 1, "青语", "轻羽");
    capture(&mut s, &mut dict, 2, "青语", "轻羽");
    assert_eq!(dict.entries.len(), 1);
    dict.entries.clear();
    let before: Vec<(String, usize, String, Option<String>, bool)> = s
        .learning
        .iter()
        .map(|w| (w.source.clone(), w.count, w.status.clone(), w.dictionary_id.clone(), w.blocked))
        .collect();
    let pair = s.finalize_session(2).unwrap().unwrap();
    assert!(matches!(s.tally(pair.0, pair.1), Tally::Settled), "the dictionary is not asked again");
    let after: Vec<(String, usize, String, Option<String>, bool)> = s
        .learning
        .iter()
        .map(|w| (w.source.clone(), w.count, w.status.clone(), w.dictionary_id.clone(), w.blocked))
        .collect();
    assert_eq!(before, after);
    assert!(dict.entries.is_empty());
}

#[test]
fn rejection_survives_other_learning() {
    let mut s = CaptureState::initial(true);
    let mut dict = Dictionary::new();
    capture(&mut s, &mut dict, 1, "青语", "轻羽");
    undo(&mut s, &mut dict, "青语", "轻羽").unwrap();
    capture(&mut s, &mut dict, 2, "青语", "清雨");
    capture(&mut s, &mut dict, 3, "青语", "清雨");
    assert_eq!(dict.entries.len(), 1);
    capture(&mut s, &mut dict, 4, "青语", "轻羽");
    capture(&mut s, &mut dict, 5, "青语", "轻羽");
    assert_eq!(dict.entries.len(), 1, "the rejected correction is not learned");
    let w = s.learning.iter().find(|w| w.target == "轻羽").unwrap();
    assert!(w.blocked);
}

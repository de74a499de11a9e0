use openless::capture::{begin_observe, cancel_watch, main_only, update, CaptureState, Record};

fn record(session: u64) -> Record {
    Record { session, app: "a".into(), before: "x".into(), after: "y".into(), finalized: false }
}

#[test]
fn initial_state_follows_platform_support() {
    let s = CaptureState::initial(true);
    assert!(s.enabled && s.supported);
    assert_eq!(s.status, "自动捕获已开启；等待下一次听写");
    let s = CaptureState::initial(false);
    assert!(!s.enabled && !s.supported);
}

#[test]
fn cancel_moves_generation_and_clears_app() {
    let mut s = CaptureState::initial(true);
    s.app = "notepad.exe".into();
    let mut g = 4;
    cancel_watch(&mut s, &mut g);
    assert_eq!(g, 5);
    assert_eq!(s.app, "");
    assert_eq!(s.status, "等待本次听写完成");
    let mut g = u64::MAX;
    cancel_watch(&mut s, &mut g);
    assert_eq!(g, 0);
}

#[test]
fn cancel_leaves_disabled_status_alone() {
    let mut s = CaptureState::initial(false);
    let mut g = 0;
    cancel_watch(&mut s, &mut g);
    assert_eq!(g, 1);
    assert_eq!(s.status, "自动捕获已开启；等待下一次听写");
}

#[test]
fn stale_updates_are_ignored() {
    let mut s = CaptureState::initial(true);
    update(&mut s, 3, 2, "old", Some("app"));
    assert_eq!(s.status, "自动捕获已开启；等待下一次听写");
    update(&mut s, 3, 3, "new", Some("app"));
    assert_eq!(s.status, "new");
    assert_eq!(s.app, "app");
    update(&mut s, 3, 3, "newer", None);
    assert_eq!(s.app, "app");
}

#[test]
fn observe_rejects_blank_and_long_text() {
    let mut s = CaptureState::initial(true);
    let mut g = 0;
    assert!(begin_observe(&mut s, &mut g, "  \r\n ").is_none());
    assert_eq!(g, 1);
    assert_eq!(s.status, "未捕获：文字为空或超过 4000 字");
    assert!(begin_observe(&mut s, &mut g, &"字".repeat(4001)).is_none());
    let (session, text) = begin_observe(&mut s, &mut g, "a\r\nb").unwrap();
    assert_eq!(session, 3);
    assert_eq!(text, "a\nb");
    assert!(begin_observe(&mut s, &mut g, &"字".repeat(4000)).is_some());
}

#[test]
fn observe_does_nothing_when_disabled() {
    let mut s = CaptureState::initial(false);
    let mut g = 7;
    assert!(begin_observe(&mut s, &mut g, "hello").is_none());
    assert_eq!(g, 7);
}

#[test]
fn recording_replaces_the_session_record() {
    let mut s = CaptureState::initial(true);
    s.records.push(record(1));
    s.records.push(record(2));
    assert!(s.record_edit(2, 2, "app", "青语", "轻羽"));
    assert_eq!(s.records.len(), 2);
    assert_eq!(s.records[0].session, 2);
    assert_eq!(s.records[0].after, "轻羽");
    assert_eq!(s.records[1].session, 1);
    assert_eq!(s.status, "已捕获修改；仍在观察，返回此页可查看");
    assert!(s.record_edit(2, 2, "app", "青语", "青语"));
    assert_eq!(s.records.len(), 1);
    assert_eq!(s.records[0].session, 1);
    assert!(!s.record_edit(3, 2, "app", "a", "b"));
    assert_eq!(s.records.len(), 1);
}

#[test]
fn at_most_five_hundred_records_are_kept() {
    let mut s = CaptureState::initial(true);
    for i in 0..500 {
        s.records.push(record(i));
    }
    assert!(s.record_edit(1000, 1000, "app", "a", "b"));
    assert_eq!(s.records.len(), 500);
    assert_eq!(s.records[0].session, 1000);
    assert_eq!(s.records[499].session, 498);
}

#[test]
fn restore_continues_after_the_last_session() {
    let mut s = CaptureState::initial(true);
    s.app = "x".into();
    s.records.push(record(7));
    s.records.push(record(41));
    s.records.push(record(3));
    let (r, next) = s.restore(false);
    assert_eq!(next, 42);
    assert_eq!(r.app, "");
    assert!(!r.supported);
    assert_eq!(r.status, "等待下一次听写；重复纠词自动学习");
    let mut off = CaptureState::initial(true);
    off.enabled = false;
    let (r, next) = off.restore(true);
    assert_eq!(next, 1);
    assert_eq!(r.status, "已停止捕获");
}

#[test]
fn clearing_keeps_learning() {
    let mut s = CaptureState::initial(true);
    s.records.push(record(1));
    s.clear_records();
    assert!(s.records.is_empty());
}

#[test]
fn only_main_window_sees_the_ledger() {
    assert_eq!(main_only("main"), Ok(()));
    assert_eq!(main_only("settings"), Err("仅主窗口可查看修改记录".to_string()));
}

#[test]
fn ledger_stays_newest_first_with_real_changes() {
    let mut s = CaptureState::initial(true);
    for g in 1..=4u64 {
        assert!(s.record_edit(g, g, "app", "青语", "轻羽"));
        assert!(s.record_edit(g, g, "app", "青语", "清雨"));
    }
    assert!(s.record_edit(5, 5, "app", "同", "同"));
    let sessions: Vec<u64> = s.records.iter().map(|r| r.session).collect();
    assert_eq!(sessions, vec![4, 3, 2, 1]);
    assert!(s.records.iter().all(|r| r.before != r.after && r.after == "清雨"));
}

use openless::watch::{Next, Snapshot, Watch, WatchEvent, WatchStep};

fn snap(text: &str, focus: &[i32]) -> WatchEvent {
    WatchEvent::Snapshot(Snapshot { app: "qq.exe".into(), focus: focus.to_vec(), text: text.into() }, 0)
}

fn snap_at(text: &str, now: u64) -> WatchEvent {
    WatchEvent::Snapshot(Snapshot { app: "qq.exe".into(), focus: vec![1, 2], text: text.into() }, now)
}

fn finish(step: &WatchStep) -> Option<bool> {
    match step.next {
        Next::Finish { finalize } => Some(finalize),
        _ => None,
    }
}

fn status(step: &WatchStep) -> Option<String> {
    step.updates.last().map(|u| u.status.clone())
}

/// Answers a clock request with `now` and expects the next poll.
fn tick(w: &mut Watch, now: u64) {
    let s = w.step(WatchEvent::Clock(now));
    assert!(matches!(s.next, Next::Snapshot { delay_ms: 500, focus: Some(_) }), "expected a poll at {now}");
}

#[test]
fn locating_gives_up_after_three_attempts() {
    let (mut w, first) = Watch::new(1, "你好".into());
    assert_eq!(status(&first).as_deref(), Some("正在定位听写输入框…"));
    assert!(matches!(first.next, Next::Snapshot { delay_ms: 0, focus: None }));
    let s1 = w.step(snap("别的", &[1]));
    assert!(matches!(s1.next, Next::Snapshot { delay_ms: 200, focus: None }));
    let _ = w.step(snap("别的", &[1]));
    let s3 = w.step(snap("别的", &[1]));
    assert!(matches!(s3.next, Next::Wait { delay_ms: 200 }), "a last pause before giving up");
    assert_eq!(s3.updates.len(), 1);
    assert_eq!(s3.updates[0].status, "正在定位听写输入框…");
    assert_eq!(s3.updates[0].app.as_deref(), Some("qq.exe"));
    let s4 = w.step(WatchEvent::Waited);
    assert_eq!(finish(&s4), Some(false));
    assert_eq!(status(&s4).as_deref(), Some("未定位原文：输入框不提供完整文字、原文重复或已被修改"));
    assert_eq!(s4.updates.len(), 1);
    assert!(s4.updates[0].app.is_none());
}

#[test]
fn stable_edit_is_recorded_and_votes() {
    let (mut w, _) = Watch::new(1, "青语".into());
    let s = w.step(snap_at("我在青语聊天", 0));
    assert_eq!(status(&s).as_deref(), Some("观察中：请在原输入框修改刚才的文字（60 秒）"));
    assert_eq!(s.updates.len(), 2);
    assert_eq!(s.updates[0].status, "正在定位听写输入框…");
    assert_eq!(s.updates[1].app.as_deref(), Some("qq.exe"));
    assert!(matches!(s.next, Next::Clock));
    tick(&mut w, 0);
    let s = w.step(snap_at("我在轻羽聊天", 500));
    assert!(matches!(s.next, Next::Clock));
    tick(&mut w, 500);
    let s = w.step(snap_at("我在轻羽聊天", 1000));
    assert!(matches!(s.next, Next::Clock), "not yet stable");
    tick(&mut w, 1000);
    let s = w.step(snap_at("我在轻羽聊天", 1700));
    match &s.next {
        Next::Record { app, before, after } => {
            assert_eq!(app, "qq.exe");
            assert_eq!(before, "青语");
            assert_eq!(after, "轻羽");
        }
        _ => panic!("expected a record request"),
    }
    let s = w.step(WatchEvent::Recorded(true));
    assert!(matches!(s.next, Next::Clock));
    tick(&mut w, 1700);
    let s = w.step(WatchEvent::Cancelled);
    assert_eq!(finish(&s), Some(true));
    let s = w.step(WatchEvent::Cancelled);
    assert_eq!(finish(&s), Some(false), "a session votes once");
}

#[test]
fn new_edit_withdraws_the_vote() {
    let (mut w, _) = Watch::new(1, "青语".into());
    w.step(snap_at("[青语]", 0));
    tick(&mut w, 0);
    w.step(snap_at("[轻羽]", 500));
    tick(&mut w, 500);
    let s = w.step(snap_at("[轻羽]", 2000));
    assert!(matches!(s.next, Next::Record { .. }));
    w.step(WatchEvent::Recorded(true));
    tick(&mut w, 2000);
    let s = w.step(snap_at("[清雨]", 2500));
    assert!(matches!(s.next, Next::Clock));
    tick(&mut w, 2500);
    let s = w.step(WatchEvent::Failed("boom".into()));
    assert_eq!(finish(&s), Some(false));
    assert_eq!(status(&s).as_deref(), Some("boom"));
}

#[test]
fn reverting_to_the_dictation_does_not_vote() {
    let (mut w, _) = Watch::new(1, "青语".into());
    w.step(snap_at("[青语]", 0));
    tick(&mut w, 0);
    w.step(snap_at("[轻羽]", 500));
    tick(&mut w, 500);
    w.step(snap_at("[轻羽]", 2000));
    w.step(WatchEvent::Recorded(true));
    tick(&mut w, 2000);
    w.step(snap_at("[青语]", 2500));
    tick(&mut w, 2500);
    let s = w.step(snap_at("[青语]", 4000));
    assert!(matches!(s.next, Next::Record { .. }));
    w.step(WatchEvent::Recorded(true));
    assert_eq!(finish(&w.step(WatchEvent::Cancelled)), Some(false));
}

#[test]
fn focus_change_or_outside_edit_stops() {
    let (mut w, _) = Watch::new(1, "青语".into());
    w.step(snap_at("[青语]", 0));
    tick(&mut w, 0);
    let s = w.step(snap("[青语]", &[9]));
    assert_eq!(status(&s).as_deref(), Some("已停止：焦点移到了另一个输入框"));
    let (mut w, _) = Watch::new(1, "青语".into());
    w.step(snap_at("[青语]", 0));
    tick(&mut w, 0);
    let s = w.step(snap_at("([青语]", 500));
    assert_eq!(status(&s).as_deref(), Some("已停止：本次听写范围外的文字发生变化"));
    let (mut w, _) = Watch::new(1, "青语".into());
    w.step(snap_at("[青语]", 0));
    tick(&mut w, 0);
    let s = w.step(snap_at("[ ]", 500));
    assert_eq!(status(&s).as_deref(), Some("已停止：文字已清空或发送，不将其视为纠错"));
}

#[test]
fn window_closes_after_sixty_seconds() {
    let (mut w, _) = Watch::new(1, "青语".into());
    w.step(snap_at("[青语]", 0));
    tick(&mut w, 0);
    w.step(snap_at("[青语]", 59_000));
    tick(&mut w, 59_999);
    w.step(snap_at("[青语]", 59_999));
    let s = w.step(WatchEvent::Clock(60_000));
    assert_eq!(finish(&s), Some(false));
    assert_eq!(status(&s).as_deref(), Some("观察结束（60 秒）；下一次听写会重新开始"));
}

#[test]
fn window_starts_when_the_clock_is_first_read() {
    let (mut w, _) = Watch::new(1, "青语".into());
    w.step(snap_at("[青语]", 0));
    tick(&mut w, 300);
    w.step(snap_at("[青语]", 60_000));
    tick(&mut w, 60_299);
    w.step(snap_at("[青语]", 60_299));
    let s = w.step(WatchEvent::Clock(60_300));
    assert_eq!(status(&s).as_deref(), Some("观察结束（60 秒）；下一次听写会重新开始"));
}

#[test]
fn window_is_measured_after_recording() {
    let (mut w, _) = Watch::new(1, "青语".into());
    w.step(snap_at("[青语]", 0));
    tick(&mut w, 0);
    w.step(snap_at("[轻羽]", 57_000));
    tick(&mut w, 57_000);
    let s = w.step(snap_at("[轻羽]", 59_500));
    assert!(matches!(s.next, Next::Record { .. }));
    w.step(WatchEvent::Recorded(true));
    let s = w.step(WatchEvent::Clock(60_000));
    assert_eq!(finish(&s), Some(true), "the recorded change votes as the window closes");
}

#[test]
fn replaced_watch_stops_without_recording() {
    let (mut w, _) = Watch::new(1, "青语".into());
    w.step(snap_at("[青语]", 0));
    tick(&mut w, 0);
    w.step(snap_at("[轻羽]", 500));
    tick(&mut w, 500);
    w.step(snap_at("[轻羽]", 2000));
    let s = w.step(WatchEvent::Recorded(false));
    assert_eq!(finish(&s), Some(false));
    assert!(s.updates.is_empty());
}

#[test]
fn an_unrequested_event_ends_the_watch_without_a_vote() {
    let (mut w, _) = Watch::new(1, "青语".into());
    w.step(snap_at("[青语]", 0));
    let s = w.step(snap_at("[青语]", 10));
    assert_eq!(finish(&s), Some(false));
    let (mut w, _) = Watch::new(1, "青语".into());
    let s = w.step(WatchEvent::Clock(5));
    assert_eq!(finish(&s), Some(false));
    let (mut w, _) = Watch::new(1, "青语".into());
    let s = w.step(WatchEvent::Waited);
    assert_eq!(finish(&s), Some(false));
}

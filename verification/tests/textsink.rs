use wren::ports::PortError;
use wren::textsink::{
    ClipboardPasteSink, DeliveryAction, DeliveryEvent, DeliveryState, KeyAction, Modifier, PasteKeys, PasteMethod,
    PasteShortcut, RESTORE_DELAY_MS,
};

/// Runs the key sequence, failing the events whose index is in `fail_at`.
fn run_keys(shortcut: PasteShortcut, fail_at: &[usize]) -> (Vec<KeyAction>, Result<(), PortError>) {
    let mut keys = PasteKeys::new(shortcut);
    let mut actions = Vec::new();
    let mut n = 0;
    while !keys.is_done() {
        let a = keys.next_action();
        actions.push(a);
        let outcome = if fail_at.contains(&n) { Err(format!("event {n} failed")) } else { Ok(()) };
        keys.report(outcome);
        n += 1;
    }
    (actions, keys.outcome())
}

#[test]
fn ctrl_shift_v_presses_clicks_and_releases_in_reverse() {
    let (actions, result) = run_keys(PasteShortcut::CtrlShiftV, &[]);
    assert_eq!(
        actions,
        vec![
            KeyAction::Press(Modifier::Control),
            KeyAction::Press(Modifier::Shift),
            KeyAction::ClickV,
            KeyAction::Release(Modifier::Shift),
            KeyAction::Release(Modifier::Control),
        ]
    );
    assert_eq!(result, Ok(()));
}

#[test]
fn a_failed_press_skips_the_click_but_still_releases() {
    let (actions, result) = run_keys(PasteShortcut::CtrlShiftV, &[1]);
    assert_eq!(
        actions,
        vec![
            KeyAction::Press(Modifier::Control),
            KeyAction::Press(Modifier::Shift),
            KeyAction::Release(Modifier::Shift),
            KeyAction::Release(Modifier::Control),
        ]
    );
    assert_eq!(result, Err(PortError::DeliveryFailed("event 1 failed".to_string())));
}

#[test]
fn a_failed_click_wins_over_a_failed_release() {
    let (actions, result) = run_keys(PasteShortcut::CtrlV, &[1, 2]);
    assert_eq!(actions, vec![KeyAction::Press(Modifier::Control), KeyAction::ClickV, KeyAction::Release(Modifier::Control)]);
    assert_eq!(result, Err(PortError::DeliveryFailed("event 1 failed".to_string())));
}

#[test]
fn a_failed_release_is_reported() {
    let (_, result) = run_keys(PasteShortcut::CtrlV, &[2]);
    assert_eq!(result, Err(PortError::DeliveryFailed("event 2 failed".to_string())));
}

#[test]
fn default_sink_pastes_without_restoring() {
    let sink = ClipboardPasteSink::new();
    assert_eq!(sink.method, PasteMethod::Paste);
    assert!(!sink.restore_clipboard);
    let sink = ClipboardPasteSink::with_config(PasteMethod::Wtype, true);
    assert_eq!(sink.method, PasteMethod::Wtype);
    assert!(sink.restore_clipboard);
}

#[test]
fn paste_with_restore_reads_sets_pastes_waits_and_restores() {
    let sink = ClipboardPasteSink::with_config(PasteMethod::CtrlShiftV, true);
    let (st, a) = sink.delivery_step("hello", DeliveryState::Start, DeliveryEvent::Begin);
    assert!(matches!(a, DeliveryAction::ReadClipboard));
    let (st, a) = sink.delivery_step("hello", st, DeliveryEvent::ClipboardRead(Some("old".to_string())));
    assert!(matches!(a, DeliveryAction::SetClipboard(ref t) if t == "hello"));
    let (st, a) = sink.delivery_step("hello", st, DeliveryEvent::Completed(Ok(())));
    assert!(matches!(a, DeliveryAction::PressShortcut(PasteShortcut::CtrlShiftV)));
    let (st, a) = sink.delivery_step("hello", st, DeliveryEvent::Completed(Ok(())));
    assert!(matches!(a, DeliveryAction::Wait(ms) if ms == RESTORE_DELAY_MS));
    let (st, a) = sink.delivery_step("hello", st, DeliveryEvent::Completed(Ok(())));
    assert!(matches!(a, DeliveryAction::RestoreClipboard(ref t) if t == "old"));
    let (st, a) = sink.delivery_step("hello", st, DeliveryEvent::Completed(Err(PortError::Other("lost".to_string()))));
    assert!(matches!(a, DeliveryAction::Finished));
    assert!(matches!(st, DeliveryState::Finished(Ok(()))));
}

#[test]
fn paste_without_restore_leaves_the_text_on_the_clipboard() {
    let sink = ClipboardPasteSink::new();
    let (st, a) = sink.delivery_step("hi", DeliveryState::Start, DeliveryEvent::Begin);
    assert!(matches!(a, DeliveryAction::SetClipboard(ref t) if t == "hi"));
    let (st, a) = sink.delivery_step("hi", st, DeliveryEvent::Completed(Ok(())));
    assert!(matches!(a, DeliveryAction::PressShortcut(PasteShortcut::CtrlV)));
    let (st, a) = sink.delivery_step("hi", st, DeliveryEvent::Completed(Ok(())));
    assert!(matches!(a, DeliveryAction::Finished));
    assert!(matches!(st, DeliveryState::Finished(Ok(()))));
}

#[test]
fn a_failed_paste_ends_the_delivery_with_its_error() {
    let sink = ClipboardPasteSink::with_config(PasteMethod::Paste, true);
    let (st, _) = sink.delivery_step("x", DeliveryState::Start, DeliveryEvent::Begin);
    let (st, _) = sink.delivery_step("x", st, DeliveryEvent::ClipboardRead(None));
    let (st, _) = sink.delivery_step("x", st, DeliveryEvent::Completed(Ok(())));
    let err = PortError::DeliveryFailed("no X".to_string());
    let (st, a) = sink.delivery_step("x", st, DeliveryEvent::Completed(Err(err.clone())));
    assert!(matches!(a, DeliveryAction::Finished));
    assert!(matches!(st, DeliveryState::Finished(Err(ref e)) if *e == err));
}

#[test]
fn typing_and_wtype_are_one_action() {
    let sink = ClipboardPasteSink::with_config(PasteMethod::Type, true);
    let (st, a) = sink.delivery_step("ação", DeliveryState::Start, DeliveryEvent::Begin);
    assert!(matches!(a, DeliveryAction::TypeText(ref t) if t == "ação"));
    let (st, _) = sink.delivery_step("ação", st, DeliveryEvent::Completed(Err(PortError::DeliveryFailed("x".to_string()))));
    assert!(matches!(st, DeliveryState::Finished(Err(PortError::DeliveryFailed(_)))));
    let sink = ClipboardPasteSink::with_config(PasteMethod::Wtype, false);
    let (_, a) = sink.delivery_step("w", DeliveryState::Start, DeliveryEvent::Begin);
    assert!(matches!(a, DeliveryAction::RunWtype(ref t) if t == "w"));
}

use route_doctor::window::{close_requested, CloseAction};

#[test]
fn close_button_hides_with_one_notice_or_quits() {
    let mut first = true;
    assert_eq!(close_requested(true, &mut first), CloseAction::HideToTray { notice: true });
    assert_eq!(close_requested(true, &mut first), CloseAction::HideToTray { notice: false });
    assert_eq!(close_requested(false, &mut first), CloseAction::SaveAndQuit);
    assert!(!first);
}

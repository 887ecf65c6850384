use service_binding::opening::retry_mode_change;
use service_binding::ModeChange;

#[test]
fn mode_change_is_retried_only_when_it_would_block() {
    assert!(retry_mode_change(ModeChange::WouldBlock));
    assert!(!retry_mode_change(ModeChange::Done));
    assert!(!retry_mode_change(ModeChange::Failed));
}

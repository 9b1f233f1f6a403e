use ogma_core::session::{Session, ToggleStep, TOGGLE_DEBOUNCE_MS};

#[test]
fn start_is_refused_while_recording_or_installing() {
    let mut s = Session::new();
    assert!(s.check_start().is_ok());
    s.started("m1".to_string());
    assert_eq!(s.check_start().unwrap_err(), "a recording is already in progress");
    assert_eq!(s.active().unwrap(), "m1");
    assert_eq!(s.take_recording().unwrap(), "m1");
    assert_eq!(s.take_recording().unwrap_err(), "no active recording");
    assert_eq!(s.active().unwrap_err(), "no active recording");

    s.begin_update_install().unwrap();
    assert!(s.install_committed);
    assert_eq!(
        s.check_start().unwrap_err(),
        "an update is being installed \u{2014} recording is unavailable until restart"
    );
    s.cancel_update_install();
    assert!(s.check_start().is_ok());
}

#[test]
fn install_is_refused_during_a_recording() {
    let mut s = Session::new();
    s.started("m1".to_string());
    assert_eq!(
        s.begin_update_install().unwrap_err(),
        "a recording is in progress \u{2014} stop it before installing the update"
    );
    assert!(!s.install_committed);
    assert!(s.must_stop_before_quit());
}

#[test]
fn toggle_alternates_and_debounces() {
    let mut s = Session::new();
    assert_eq!(s.toggle(1_000), ToggleStep::Start);
    s.started("m1".to_string());
    // Key auto-repeat inside the window does nothing.
    assert_eq!(s.toggle(1_000 + TOGGLE_DEBOUNCE_MS - 1), ToggleStep::Ignore);
    assert_eq!(s.last_toggle_ms, Some(1_000));
    assert_eq!(s.toggle(1_000 + TOGGLE_DEBOUNCE_MS), ToggleStep::Stop);
    s.take_recording().unwrap();
    assert_eq!(s.toggle(5_000), ToggleStep::Start);
    // A clock that reads earlier counts as no time at all.
    assert_eq!(s.toggle(4_000), ToggleStep::Ignore);
    assert!(!s.must_stop_before_quit());
}

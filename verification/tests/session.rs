use klask::child_app::ChildApp;

#[test]
fn read_interleaves_and_tracks_stream_ends() {
    let mut s = ChildApp::new();
    let out = s.read(
        &vec![Some("a\n".to_string()), Some("b\n".to_string())],
        &vec![Some("e\n".to_string())],
    );
    assert_eq!(out, "a\nb\ne\n");
    assert!(s.is_running());
}

#[test]
fn running_until_both_sentinels_seen() {
    // the child closes stdout first; the session must stay running
    // until stderr ends too
    let mut s = ChildApp::new();
    let out = s.read(&vec![Some("x".to_string()), None], &vec![Some("y".to_string())]);
    assert_eq!(out, "xy");
    assert!(s.is_running());
    let out = s.read(&vec![Some("late".to_string())], &vec![]);
    assert_eq!(out, "");
    assert!(s.is_running());
    let _ = s.read(&vec![], &vec![None]);
    assert!(!s.is_running());
}

#[test]
fn kill_is_idempotent() {
    let mut s = ChildApp::new();
    s.kill();
    assert!(!s.is_running());
    s.kill();
    assert!(!s.is_running());
    let out = s.read(&vec![Some("x".to_string())], &vec![]);
    assert_eq!(out, "");
}

use wpdiff::progress::ProgressControl;

#[test]
fn suppress_toggle() {
    let mut progress = ProgressControl::new();
    progress.suppress(true);
    assert!(progress.is_suppressed());
    progress.suppress(false);
    assert!(!progress.is_suppressed());
}

//! The order in which the program starts.
use window_switcher::launch::{Launch, StartStep};

fn run(trayicon: bool, failing: &[StartStep]) -> (Vec<StartStep>, bool) {
    let mut launch = Launch::new(trayicon);
    let mut performed = vec![];
    while let Some(step) = launch.pending() {
        performed.push(step);
        launch.report(!failing.contains(&step));
    }
    (performed, launch.failed())
}

#[test]
fn steps_with_a_tray_icon() {
    let (performed, failed) = run(true, &[]);
    assert!(!failed);
    assert_eq!(
        performed,
        vec![
            StartStep::EnterApartment,
            StartStep::CreateWindow,
            StartStep::CreatePainter,
            StartStep::WatchForeground,
            StartStep::ListenToKeyboard,
            StartStep::CreateTrayIcon,
            StartStep::CheckAdmin,
            StartStep::InitStartup,
            StartStep::RegisterTrayIcon,
            StartStep::AttachToWindow,
            StartStep::RunEventLoop,
        ]
    );
}

#[test]
fn steps_without_a_tray_icon() {
    let (performed, failed) = run(false, &[]);
    assert!(!failed);
    assert_eq!(performed.len(), 9);
    assert!(!performed.contains(&StartStep::CreateTrayIcon));
    assert!(!performed.contains(&StartStep::RegisterTrayIcon));
    assert_eq!(performed[5], StartStep::CheckAdmin);
}

#[test]
fn dispensable_steps_may_fail() {
    let (performed, failed) = run(true, &[StartStep::EnterApartment, StartStep::RegisterTrayIcon]);
    assert!(!failed);
    assert_eq!(performed.len(), 11);
}

#[test]
fn first_failure_is_the_last_step() {
    let (performed, failed) = run(true, &[StartStep::CreatePainter, StartStep::CheckAdmin]);
    assert!(failed);
    assert_eq!(performed.last(), Some(&StartStep::CreatePainter));
    assert_eq!(performed.len(), 3);
}

#[test]
fn reports_after_the_end_change_nothing() {
    let mut launch = Launch::new(false);
    launch.report(true);
    launch.report(false);
    assert!(launch.failed());
    launch.report(true);
    assert!(launch.failed());
    assert_eq!(launch.pending(), None);
}

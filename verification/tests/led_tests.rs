use launch_leds::color::Rgb;
use launch_leds::led::{FakeSink, Led, LedWrite, SyncOutcome};

fn red() -> Rgb {
    Rgb { r: 255, g: 0, b: 0 }
}

#[test]
fn set_color_changes_only_the_desired_color() {
    let mut led = Led { i: 7, color: Rgb { r: 0, g: 0, b: 0 }, sync_color: None };
    led.set_color(255, 0, 0);
    assert_eq!(led.i, 7);
    assert_eq!(led.color, red());
    assert_eq!(led.sync_color, None);
}

#[test]
fn first_sync_writes_and_confirms() {
    let mut led = Led { i: 7, color: red(), sync_color: None };
    let mut sink = FakeSink::new();
    let out = led.sync(&mut sink);
    assert_eq!(out, SyncOutcome::Written);
    assert_eq!(led.sync_color, Some(red()));
    assert_eq!(sink.recorded(), &vec![LedWrite { index: 7, color: red() }]);
}

#[test]
fn identical_frames_write_once() {
    let mut led = Led { i: 7, color: red(), sync_color: None };
    let mut sink = FakeSink::new();
    led.sync(&mut sink);
    for _ in 0..5 {
        let out = led.sync(&mut sink);
        assert_eq!(out, SyncOutcome::Unchanged);
    }
    assert_eq!(sink.recorded().len(), 1);
}

#[test]
fn confirmed_color_suppresses_the_write() {
    let mut led = Led { i: 3, color: red(), sync_color: Some(red()) };
    let mut sink = FakeSink::new();
    let out = led.sync(&mut sink);
    assert_eq!(out, SyncOutcome::Unchanged);
    assert_eq!(sink.recorded().len(), 0);
}

#[test]
fn failed_write_is_retried_until_it_succeeds() {
    let mut led = Led { i: 9, color: red(), sync_color: None };
    let mut sink = FakeSink::failing();
    assert_eq!(led.sync(&mut sink), SyncOutcome::Failed);
    assert_eq!(led.sync_color, None);
    assert_eq!(led.sync(&mut sink), SyncOutcome::Failed);
    assert_eq!(sink.recorded().len(), 2);
    sink.fail_all = false;
    assert_eq!(led.sync(&mut sink), SyncOutcome::Written);
    assert_eq!(led.sync_color, Some(red()));
    assert_eq!(led.sync(&mut sink), SyncOutcome::Unchanged);
    assert_eq!(sink.recorded().len(), 3);
    // The sink's acceptance trace matches the reported outcomes.
    assert_eq!(sink.accepted, vec![false, false, true]);
}

#[test]
fn changed_color_writes_again() {
    let mut led = Led { i: 1, color: red(), sync_color: None };
    let mut sink = FakeSink::new();
    led.sync(&mut sink);
    led.set_color(0, 255, 0);
    assert_eq!(led.sync(&mut sink), SyncOutcome::Written);
    assert_eq!(
        sink.recorded(),
        &vec![
            LedWrite { index: 1, color: red() },
            LedWrite { index: 1, color: Rgb { r: 0, g: 255, b: 0 } },
        ]
    );
}

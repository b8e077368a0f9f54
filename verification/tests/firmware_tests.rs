use rust_course::firmware::{
    blink_pattern, buffer_full, due_outputs, error_alerts, led_action, sample_time_ms,
    status_icon, DueOutputs, LedAction, LedStep, PowerOptimizedSystem, SystemState,
    SAMPLE_INTERVAL_FAST_MS, SAMPLE_INTERVAL_SLOW_MS,
};
use rust_course::monitor::Temperature;
use rust_course::power::PowerMode;

fn state(reading_count: u32, overheating: u32, errors: u32) -> SystemState {
    SystemState {
        reading_count,
        system_time_ms: reading_count * 1000,
        overheating_count: overheating,
        sensor_error_count: errors,
    }
}

#[test]
fn system_state_counts() {
    let mut s = SystemState::new();
    assert_eq!(s, state(0, 0, 0));
    s.advance_time();
    s.advance_time();
    s.record_overheating();
    s.record_sensor_error();
    s.record_sensor_error();
    assert_eq!(s.reading_count, 2);
    assert_eq!(s.system_time_ms, 2000);
    assert_eq!(s.overheating_count, 1);
    assert_eq!(s.sensor_error_count, 2);
    assert_eq!(s.uptime_seconds(), 2);
    let late = SystemState { system_time_ms: 61999, ..s };
    assert_eq!(late.uptime_seconds(), 61);
}

#[test]
fn outputs_come_due_on_their_intervals() {
    assert_eq!(due_outputs(5), DueOutputs { json: true, health_report: false, demo: false });
    assert_eq!(due_outputs(20), DueOutputs { json: true, health_report: true, demo: false });
    assert_eq!(due_outputs(50), DueOutputs { json: true, health_report: false, demo: true });
    assert_eq!(due_outputs(7), DueOutputs { json: false, health_report: false, demo: false });
    assert_eq!(due_outputs(100), DueOutputs { json: true, health_report: true, demo: true });
}

#[test]
fn led_follows_temperature_and_errors() {
    let hot = Temperature::from_tenths(600);
    let fine = Temperature::from_tenths(250);
    assert_eq!(led_action(&hot, &state(3, 0, 0)), LedAction::SetHigh);
    assert_eq!(led_action(&fine, &state(4, 0, 1)), LedAction::Toggle);
    assert_eq!(led_action(&fine, &state(4, 0, 0)), LedAction::Keep);
    assert_eq!(led_action(&fine, &state(10, 0, 0)), LedAction::Toggle);
    assert_eq!(led_action(&fine, &state(7, 0, 2)), LedAction::Keep);
}

#[test]
fn icons_by_priority() {
    let hot = Temperature::from_tenths(501);
    let fine = Temperature::from_tenths(250);
    let cold = Temperature::from_tenths(100);
    assert_eq!(status_icon(&hot, &state(1, 0, 5)), "🔴");
    assert_eq!(status_icon(&fine, &state(1, 0, 1)), "🟡");
    assert_eq!(status_icon(&fine, &state(1, 0, 0)), "🟢");
    assert_eq!(status_icon(&cold, &state(1, 0, 0)), "🔵");
    assert_eq!(status_icon(&Temperature::from_tenths(500), &state(1, 0, 0)), "🔵");
}

#[test]
fn alerts_from_thresholds() {
    assert!(error_alerts(&state(1, 4, 2)).is_empty());
    assert_eq!(
        error_alerts(&state(1, 5, 0)),
        vec!["🚨 WARNING: 5 overheating events detected! System requires attention.".to_string()]
    );
    assert_eq!(
        error_alerts(&state(1, 0, 3)),
        vec!["⚠️  ALERT: 3 sensor errors detected. Check sensor connection.".to_string()]
    );
    assert_eq!(error_alerts(&state(1, 12, 7)).len(), 2);
    assert!(buffer_full(32, 32));
    assert!(!buffer_full(31, 32));
}

#[test]
fn power_modes_follow_readings() {
    let mut p = PowerOptimizedSystem::new();
    assert_eq!(p.current_mode, PowerMode::Efficient);
    assert_eq!(p.sample_interval_ms, SAMPLE_INTERVAL_FAST_MS);
    for _ in 0..11 {
        p.add_temperature();
    }
    assert_eq!(p.reading_count, 11);
    assert_eq!(p.temp_index, 1);
    assert_eq!(p.determine_optimal_mode(true, true), PowerMode::HighPerformance);
    assert_eq!(p.determine_optimal_mode(false, true), PowerMode::PowerSaver);
    assert_eq!(p.determine_optimal_mode(false, false), PowerMode::Efficient);
    let young = PowerOptimizedSystem::new();
    assert_eq!(young.determine_optimal_mode(false, true), PowerMode::Efficient);
    p.update_sample_interval(PowerMode::PowerSaver);
    assert_eq!(p.sample_interval_ms, SAMPLE_INTERVAL_SLOW_MS);
    assert_eq!(p.sleep_time_ms(250), 59750);
    p.update_sample_interval(PowerMode::HighPerformance);
    assert_eq!(p.sleep_time_ms(1500), 0);
}

#[test]
fn blinks_by_range() {
    let hot = blink_pattern(&Temperature::from_tenths(550));
    assert_eq!(hot.len(), 6);
    assert!(hot.iter().all(|s| s.hold_ms == 100));
    assert_eq!(
        blink_pattern(&Temperature::from_tenths(400)),
        vec![
            LedStep { on: true, hold_ms: 150 },
            LedStep { on: false, hold_ms: 100 },
            LedStep { on: true, hold_ms: 150 },
            LedStep { on: false, hold_ms: 0 },
        ]
    );
    assert_eq!(
        blink_pattern(&Temperature::from_tenths(220)),
        vec![LedStep { on: true, hold_ms: 200 }, LedStep { on: false, hold_ms: 0 }]
    );
    assert_eq!(sample_time_ms(7), 7000);
}

use rust_course::monitor::{
    buffer_usage, comm_error_message, CommSettings, Temperature, TemperatureBuffer,
};

// The library keeps temperatures in tenths of a degree; these two helpers
// convert from and to degrees the way the device firmware does.
fn device_from_celsius(celsius: f32) -> Temperature {
    Temperature::from_tenths((celsius * 10.0) as i16)
}

fn device_celsius(t: Temperature) -> f32 {
    t.tenths() as f32 / 10.0
}

#[test]
fn temperature_test_temperature_ranges() {
    let normal = device_from_celsius(25.0);
    assert!(normal.is_normal_range());
    assert!(!normal.is_overheating());

    let hot = device_from_celsius(55.0);
    assert!(!hot.is_normal_range());
    assert!(hot.is_overheating());

    let cold = device_from_celsius(5.0);
    assert!(!cold.is_normal_range());
    assert!(!cold.is_overheating());
}

#[test]
fn temperature_test_buffer_basic_operations() {
    let mut buffer = TemperatureBuffer::<5>::new();

    assert_eq!(buffer.len(), 0);
    assert_eq!(buffer.capacity(), 5);
    assert_eq!(buffer.latest(), None);
    assert!(buffer.is_empty());

    buffer.push(device_from_celsius(20.0));
    buffer.push(device_from_celsius(25.0));
    buffer.push(device_from_celsius(30.0));

    assert_eq!(buffer.len(), 3);
    assert_eq!(buffer.total_readings(), 3);
    assert_eq!(device_celsius(buffer.latest().unwrap()), 30.0);
    assert!(!buffer.is_empty());
}

#[test]
fn temperature_test_buffer_circular_behavior() {
    let mut buffer = TemperatureBuffer::<3>::new();

    buffer.push(device_from_celsius(10.0));
    buffer.push(device_from_celsius(20.0));
    buffer.push(device_from_celsius(30.0));
    assert_eq!(buffer.len(), 3);

    buffer.push(device_from_celsius(40.0));

    assert_eq!(buffer.len(), 3);
    assert_eq!(buffer.total_readings(), 4);

    assert_eq!(device_celsius(buffer.min().unwrap()), 20.0);
    assert_eq!(device_celsius(buffer.max().unwrap()), 40.0);
}

#[test]
fn temperature_test_buffer_statistics() {
    let mut buffer = TemperatureBuffer::<10>::new();

    for i in 0..5 {
        buffer.push(device_from_celsius(20.0 + i as f32));
    }

    let avg = buffer.average().unwrap();
    assert!((device_celsius(avg) - 22.0).abs() < 0.1);

    assert_eq!(device_celsius(buffer.min().unwrap()), 20.0);
    assert_eq!(device_celsius(buffer.max().unwrap()), 24.0);
}

#[test]
fn test_command_processing() {
    let mut comm = CommSettings::new();
    comm.init(0);
    let buffer = TemperatureBuffer::<5>::new();

    // The status reports the uptime and the share of the buffer in use.
    assert_eq!(comm.uptime(5000), 5000);
    assert_eq!(buffer_usage(buffer.len(), buffer.capacity()), 0);

    // Setting the rate
    assert_eq!(comm.set_sample_rate(5), Ok(5));
    assert_eq!(comm.sample_rate_hz, 5);
}

#[test]
fn test_error_handling() {
    let mut comm = CommSettings::new();

    // An invalid sample rate: too high
    match comm.set_sample_rate(20) {
        Err(code) => {
            assert_eq!(code, 3);
            assert!(comm_error_message(code).contains("Rate must be"));
        }
        Ok(_) => panic!("Expected error response"),
    }
}

#[test]
fn readings_come_back_oldest_first_after_wrapping() {
    let mut buffer = TemperatureBuffer::<3>::new();
    for t in [10, 20, 30, 40, 50] {
        buffer.push(Temperature::from_tenths(t));
    }
    let values: Vec<i16> = buffer.get_readings().iter().map(|t| t.tenths()).collect();
    assert_eq!(values, vec![30, 40, 50]);
    assert_eq!(buffer.latest(), Some(Temperature::from_tenths(50)));
    assert_eq!(buffer.total_readings(), 5);
    buffer.clear();
    assert!(buffer.is_empty());
    assert_eq!(buffer.total_readings(), 0);
}

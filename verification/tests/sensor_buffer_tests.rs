use rust_course::sensor::{Temperature, TemperatureBuffer};

// The library keeps temperatures in tenths of a degree; these two helpers
// convert from and to degrees the way the device firmware does.
fn from_celsius(celsius: f32) -> Temperature {
    Temperature::from_tenths((celsius * 10.0) as i16)
}

fn celsius(t: Temperature) -> f32 {
    t.tenths() as f32 / 10.0
}

#[test]
fn lib_test_temperature_ranges() {
    let normal = from_celsius(25.0);
    assert!(normal.is_normal_range());
    assert!(!normal.is_overheating());

    let hot = from_celsius(105.0);
    assert!(!hot.is_normal_range());
    assert!(hot.is_overheating());

    let cold = from_celsius(5.0);
    assert!(!cold.is_normal_range());
    assert!(!cold.is_overheating());
}

#[test]
fn lib_test_buffer_basic_operations() {
    let mut buffer = TemperatureBuffer::<5>::new();

    assert_eq!(buffer.len(), 0);
    assert_eq!(buffer.capacity(), 5);
    assert_eq!(buffer.latest(), None);
    assert!(buffer.is_empty());

    buffer.push(from_celsius(20.0));
    buffer.push(from_celsius(25.0));
    buffer.push(from_celsius(30.0));

    assert_eq!(buffer.len(), 3);
    assert_eq!(buffer.total_readings(), 3);
    assert_eq!(celsius(buffer.latest().unwrap()), 30.0);
    assert!(!buffer.is_empty());
}

#[test]
fn lib_test_buffer_circular_behavior() {
    let mut buffer = TemperatureBuffer::<3>::new();

    buffer.push(from_celsius(10.0));
    buffer.push(from_celsius(20.0));
    buffer.push(from_celsius(30.0));
    assert_eq!(buffer.len(), 3);

    buffer.push(from_celsius(40.0));

    assert_eq!(buffer.len(), 3);
    assert_eq!(buffer.total_readings(), 4);

    assert_eq!(celsius(buffer.min().unwrap()), 20.0);
    assert_eq!(celsius(buffer.max().unwrap()), 40.0);
}

#[test]
fn lib_test_buffer_statistics() {
    let mut buffer = TemperatureBuffer::<10>::new();

    for i in 0..5 {
        buffer.push(from_celsius(20.0 + i as f32));
    }

    let avg = buffer.average().unwrap();
    assert!((celsius(avg) - 22.0).abs() < 0.1);

    assert_eq!(celsius(buffer.min().unwrap()), 20.0);
    assert_eq!(celsius(buffer.max().unwrap()), 24.0);
}

#[test]
fn test_buffer_empty_statistics() {
    let buffer = TemperatureBuffer::<5>::new();

    assert_eq!(buffer.average(), None);
    assert_eq!(buffer.min(), None);
    assert_eq!(buffer.max(), None);
    assert_eq!(buffer.stats(), None);
}

#[test]
fn test_buffer_single_reading() {
    let mut buffer = TemperatureBuffer::<5>::new();
    buffer.push(from_celsius(25.0));

    let avg = buffer.average().unwrap();
    assert_eq!(celsius(avg), 25.0);
    assert_eq!(celsius(buffer.min().unwrap()), 25.0);
    assert_eq!(celsius(buffer.max().unwrap()), 25.0);
}

#[test]
fn test_temperature_display() {
    let temp = from_celsius(23.7);
    let display_str = temp.to_text();
    assert_eq!(display_str, "23.7°C");
}

#[test]
fn test_buffer_capacity_limits() {
    let mut buffer = TemperatureBuffer::<2>::new();

    buffer.push(from_celsius(20.0));
    assert_eq!(buffer.len(), 1);

    buffer.push(from_celsius(25.0));
    assert_eq!(buffer.len(), 2);

    buffer.push(from_celsius(30.0));
    assert_eq!(buffer.len(), 2);
    assert_eq!(buffer.total_readings(), 3);
}

#[test]
fn test_statistics_accuracy() {
    let mut buffer = TemperatureBuffer::<4>::new();

    buffer.push(from_celsius(10.0));
    buffer.push(from_celsius(20.0));
    buffer.push(from_celsius(30.0));
    buffer.push(from_celsius(40.0));

    let avg = buffer.average().unwrap();
    assert_eq!(celsius(avg), 25.0);

    assert_eq!(celsius(buffer.min().unwrap()), 10.0);
    assert_eq!(celsius(buffer.max().unwrap()), 40.0);

    let stats = buffer.stats().unwrap();
    assert_eq!(stats.count, 4);
    assert_eq!(stats.total_count, 4);
    assert_eq!(celsius(stats.average), 25.0);
    assert_eq!(celsius(stats.min), 10.0);
    assert_eq!(celsius(stats.max), 40.0);
}

#[test]
fn test_temperature_monitor_workflow() {
    let mut buffer = TemperatureBuffer::<5>::new();

    let readings = vec![22.0, 23.0, 24.0, 25.0, 26.0, 27.0];

    for temp_celsius in readings {
        let temp = from_celsius(temp_celsius);
        buffer.push(temp);
    }

    assert_eq!(buffer.len(), 5);
    assert_eq!(buffer.total_readings(), 6);

    let stats = buffer.average().unwrap();
    assert!((celsius(stats) - 25.0).abs() < 0.1);

    assert_eq!(celsius(buffer.min().unwrap()), 23.0);
    assert_eq!(celsius(buffer.max().unwrap()), 27.0);
}

#[test]
fn test_overheating_detection() {
    let normal_temp = from_celsius(25.0);
    let hot_temp = from_celsius(150.0);
    let very_hot_temp = from_celsius(175.0);

    assert!(!normal_temp.is_overheating());
    assert!(hot_temp.is_overheating());
    assert!(very_hot_temp.is_overheating());

    let mut buffer = TemperatureBuffer::<3>::new();
    buffer.push(normal_temp);
    buffer.push(hot_temp);
    buffer.push(very_hot_temp);

    let avg = buffer.average().unwrap();
    assert!(avg.is_overheating());
}

#[test]
fn test_sensor_hal_integration() {
    // The readings that a sensor cycling through these values gives.
    let sensor_values = vec![20.0f32, 25.0, 30.0, 35.0, 40.0];
    let mut index = 0;

    let mut buffer = TemperatureBuffer::<3>::new();

    for _ in 0..5 {
        let reading = sensor_values[index];
        index = (index + 1) % sensor_values.len();
        let temp = from_celsius(reading);
        buffer.push(temp);
    }

    assert_eq!(buffer.len(), 3);
    assert_eq!(buffer.total_readings(), 5);

    let stats = buffer.stats().unwrap();
    assert_eq!(celsius(stats.average), 35.0);
    assert_eq!(celsius(stats.min), 30.0);
    assert_eq!(celsius(stats.max), 40.0);
}

#[test]
fn newest_reading_is_latest_after_the_buffer_wraps() {
    let mut buffer = TemperatureBuffer::<2>::new();
    buffer.push(Temperature::from_tenths(100));
    buffer.push(Temperature::from_tenths(200));
    buffer.push(Temperature::from_tenths(300));
    assert_eq!(buffer.latest(), Some(Temperature::from_tenths(300)));
    assert_eq!(buffer.min(), Some(Temperature::from_tenths(200)));
}

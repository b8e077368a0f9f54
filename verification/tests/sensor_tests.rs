use rust_course::monitor::{
    buffer_usage, comm_error_message, CommSettings, Temperature as DeviceTemperature,
    TemperatureBuffer as DeviceBuffer, TemperatureReading,
};
use rust_course::sensor::{Temperature, TemperatureBuffer};

fn t(tenths: i16) -> Temperature {
    Temperature::from_tenths(tenths)
}

#[test]
fn test_memory_usage() {
    // Verify our types are memory efficient
    let temp_size = core::mem::size_of::<Temperature>();

    println!("Temperature size: {} bytes", temp_size);

    assert_eq!(temp_size, 2); // Should be exactly 2 bytes
}

#[test]
fn ranges_by_tenths() {
    assert!(t(250).is_normal_range());
    assert!(!t(250).is_overheating());
    assert!(!t(1050).is_normal_range());
    assert!(t(1050).is_overheating());
    assert!(!t(50).is_normal_range());
    assert!(!t(50).is_overheating());
    assert!(t(150).is_normal_range() && t(350).is_normal_range());
    assert!(!t(1000).is_overheating());
    let device = DeviceTemperature::from_tenths(550);
    assert!(device.is_overheating());
    assert!(!DeviceTemperature::from_tenths(500).is_overheating());
}

#[test]
fn temperature_text() {
    assert_eq!(t(237).to_text(), "23.7°C");
    assert_eq!(t(-5).to_text(), "-0.5°C");
    assert_eq!(t(0).to_text(), "0.0°C");
    assert_eq!(t(-32768).to_text(), "-3276.8°C");
}

#[test]
fn buffer_basic_operations_in_tenths() {
    let mut buffer = TemperatureBuffer::<5>::new();
    assert_eq!(buffer.len(), 0);
    assert_eq!(buffer.capacity(), 5);
    assert_eq!(buffer.latest(), None);
    assert!(buffer.is_empty());
    buffer.push(t(200));
    buffer.push(t(250));
    buffer.push(t(300));
    assert_eq!(buffer.len(), 3);
    assert_eq!(buffer.total_readings(), 3);
    assert_eq!(buffer.latest().unwrap().tenths(), 300);
    assert!(!buffer.is_empty());
}

#[test]
fn buffer_overwrites_oldest_when_full() {
    let mut buffer = TemperatureBuffer::<3>::new();
    buffer.push(t(100));
    buffer.push(t(200));
    buffer.push(t(300));
    buffer.push(t(400));
    assert_eq!(buffer.len(), 3);
    assert_eq!(buffer.total_readings(), 4);
    assert_eq!(buffer.min().unwrap().tenths(), 200);
    assert_eq!(buffer.max().unwrap().tenths(), 400);
    buffer.clear();
    assert!(buffer.is_empty());
    assert_eq!(buffer.total_readings(), 0);
}

#[test]
fn buffer_statistics_in_tenths() {
    let mut buffer = TemperatureBuffer::<4>::new();
    assert_eq!(buffer.stats(), None);
    assert_eq!(buffer.average(), None);
    for v in [100, 200, 300, 400] {
        buffer.push(t(v));
    }
    assert_eq!(buffer.average().unwrap().tenths(), 250);
    let stats = buffer.stats().unwrap();
    assert_eq!(stats.count, 4);
    assert_eq!(stats.total_count, 4);
    assert_eq!(stats.min.tenths(), 100);
    assert_eq!(stats.max.tenths(), 400);
    assert_eq!(
        stats.to_text(),
        "Stats: 4 readings (total: 4), Avg: 25.0°C, Min: 10.0°C, Max: 40.0°C"
    );
}

#[test]
fn average_rounds_toward_zero() {
    let mut buffer = TemperatureBuffer::<3>::new();
    buffer.push(t(-1));
    buffer.push(t(-2));
    assert_eq!(buffer.average().unwrap().tenths(), -1);
    let mut buffer = TemperatureBuffer::<3>::new();
    buffer.push(t(1));
    buffer.push(t(2));
    assert_eq!(buffer.average().unwrap().tenths(), 1);
}

#[test]
fn device_buffer_and_readings() {
    let mut buffer = DeviceBuffer::<2>::new();
    buffer.push(DeviceTemperature::from_tenths(10));
    buffer.push(DeviceTemperature::from_tenths(20));
    buffer.push(DeviceTemperature::from_tenths(30));
    let values: Vec<i16> = buffer.get_readings().iter().map(|x| x.tenths()).collect();
    assert_eq!(values, vec![20, 30]);
    let reading = TemperatureReading::new(DeviceTemperature::from_tenths(235), 1000, 0);
    assert_eq!(reading.timestamp_ms, 1000);
    assert_eq!(reading.temperature.tenths(), 235);
}

#[test]
fn comm_settings_and_usage() {
    let mut settings = CommSettings::new();
    settings.init(100);
    assert_eq!(settings.uptime(5100), 5000);
    assert_eq!(settings.uptime(50), 0);
    assert_eq!(settings.set_sample_rate(5), Ok(5));
    assert_eq!(settings.sample_rate_hz, 5);
    assert_eq!(settings.set_sample_rate(20), Err(3));
    assert_eq!(settings.sample_rate_hz, 5);
    assert_eq!(comm_error_message(3), "Rate must be 1-10 Hz");
    settings.reset(7000);
    assert_eq!(settings.sample_rate_hz, 1);
    assert_eq!(settings.uptime(7000), 0);
    assert_eq!(buffer_usage(3, 5), 60);
    assert_eq!(buffer_usage(0, 0), 0);
}

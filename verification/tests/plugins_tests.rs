use rust_course::plugins::{Configurable, LogPlugin, MetricsPlugin, Plugin, PluginManager};

#[test]
fn test_log_plugin_creation() {
    let log_plugin = LogPlugin::new("MyLogger".to_string());
    assert_eq!(log_plugin.name(), "MyLogger");
    assert_eq!(log_plugin.level(), "info");
}

#[test]
fn test_log_plugin_configuration() {
    let mut log_plugin = LogPlugin::new("Logger".to_string());
    log_plugin.configure("level=debug");
    assert_eq!(log_plugin.level(), "debug");

    log_plugin.configure("level=error");
    assert_eq!(log_plugin.level(), "error");
}

#[test]
fn test_metrics_plugin_creation() {
    let metrics_plugin = MetricsPlugin::new("MyMetrics".to_string(), 30);
    assert_eq!(metrics_plugin.name(), "MyMetrics");
    assert_eq!(metrics_plugin.interval(), 30);
}

#[test]
fn test_metrics_plugin_configuration() {
    let mut metrics_plugin = MetricsPlugin::new("Metrics".to_string(), 60);
    metrics_plugin.configure("interval=120");
    assert_eq!(metrics_plugin.interval(), 120);

    // Invalid config should not change interval
    metrics_plugin.configure("interval=invalid");
    assert_eq!(metrics_plugin.interval(), 120);
}

#[test]
fn test_plugin_manager() {
    let mut manager: PluginManager = PluginManager::new();
    assert_eq!(manager.plugin_count(), 0);

    let log_plugin = LogPlugin::new("Logger".to_string());
    let metrics_plugin = MetricsPlugin::new("Metrics".to_string(), 60);

    manager.register(Box::new(log_plugin));
    manager.register(Box::new(metrics_plugin));

    assert_eq!(manager.plugin_count(), 2);

    let names = manager.get_plugin_names();
    assert_eq!(names.len(), 2);
    assert!(names.contains(&"Logger"));
    assert!(names.contains(&"Metrics"));
}

#[test]
fn test_trait_objects() {
    let mut manager: PluginManager = PluginManager::new();

    // Test that we can store different types implementing Plugin
    manager.register(Box::new(LogPlugin::new("Log".to_string())));
    manager.register(Box::new(MetricsPlugin::new("Metrics".to_string(), 30)));

    // This should work without panicking - testing dynamic dispatch
    manager.run_all();

    assert_eq!(manager.plugin_count(), 2);
}

#[test]
fn test_multiple_trait_implementations() {
    let mut log_plugin = LogPlugin::new("TestLogger".to_string());

    // Test Plugin trait
    assert_eq!(log_plugin.name(), "TestLogger");

    // Test Configurable trait
    log_plugin.configure("level=warn");
    assert_eq!(log_plugin.level(), "warn");

    // Both traits work on the same object
    log_plugin.execute(); // Should work without panicking
}

#[test]
fn test_configuration_edge_cases() {
    let mut log_plugin = LogPlugin::new("Logger".to_string());
    let mut metrics_plugin = MetricsPlugin::new("Metrics".to_string(), 60);

    // Test empty config
    log_plugin.configure("");
    assert_eq!(log_plugin.level(), "info"); // Should remain default

    // Test invalid config
    log_plugin.configure("invalid_config");
    assert_eq!(log_plugin.level(), "info");

    // Test partial config
    metrics_plugin.configure("interval=");
    assert_eq!(metrics_plugin.interval(), 60); // Should remain unchanged

    // Test config without equals
    metrics_plugin.configure("interval");
    assert_eq!(metrics_plugin.interval(), 60);
}

#[test]
fn test_plugin_polymorphism() {
    // Test that we can treat different plugins polymorphically
    let plugins: Vec<Box<dyn Plugin>> = vec![
        Box::new(LogPlugin::new("Logger1".to_string())),
        Box::new(LogPlugin::new("Logger2".to_string())),
        Box::new(MetricsPlugin::new("Metrics1".to_string(), 30)),
        Box::new(MetricsPlugin::new("Metrics2".to_string(), 60)),
    ];

    // Collect names through trait object
    let names: Vec<&str> = plugins.iter().map(|p| p.name()).collect();
    assert_eq!(names.len(), 4);
    assert!(names.contains(&"Logger1"));
    assert!(names.contains(&"Logger2"));
    assert!(names.contains(&"Metrics1"));
    assert!(names.contains(&"Metrics2"));

    // Execute all through trait object
    for plugin in &plugins {
        plugin.execute(); // Should work without panicking
    }
}

#[test]
fn test_configurable_plugins_with_manager() {
    let mut manager: PluginManager = PluginManager::new();

    // Create configurable plugins
    let mut log_plugin = LogPlugin::new("ConfigurableLogger".to_string());
    let mut metrics_plugin = MetricsPlugin::new("ConfigurableMetrics".to_string(), 60);

    // Configure them
    log_plugin.configure("level=error");
    metrics_plugin.configure("interval=30");

    // Verify configuration took effect
    assert_eq!(log_plugin.level(), "error");
    assert_eq!(metrics_plugin.interval(), 30);

    // Add to manager
    manager.register(Box::new(log_plugin));
    manager.register(Box::new(metrics_plugin));

    assert_eq!(manager.plugin_count(), 2);
}

#[test]
fn test_execute_reports() {
    let log_plugin = LogPlugin::new("Logger".to_string());
    assert_eq!(log_plugin.execute(), "Logging at info level");
    let metrics_plugin = MetricsPlugin::new("Metrics".to_string(), 45);
    assert_eq!(metrics_plugin.execute(), "Collecting metrics every 45 seconds");
}

#[test]
fn test_run_all_reports_in_order() {
    let mut manager: PluginManager = PluginManager::new();
    let mut log_plugin = LogPlugin::new("Log".to_string());
    log_plugin.configure("level=trace");
    manager.register(Box::new(log_plugin));
    manager.register(Box::new(MetricsPlugin::new("M".to_string(), 0)));
    assert_eq!(
        manager.run_all(),
        vec![
            "Logging at trace level".to_string(),
            "Collecting metrics every 0 seconds".to_string()
        ]
    );
    assert_eq!(manager.get_plugin_names(), vec!["Log", "M"]);
}

#[test]
fn test_configure_trims_and_stops_at_next_key() {
    let mut log_plugin = LogPlugin::new("Logger".to_string());
    log_plugin.configure("mode=x level=  warn  ");
    assert_eq!(log_plugin.level(), "warn");
    log_plugin.configure("level=debug level=error");
    assert_eq!(log_plugin.level(), "debug");
    log_plugin.configure("level=");
    assert_eq!(log_plugin.level(), "");
}

#[test]
fn test_configure_interval_limits() {
    let mut metrics_plugin = MetricsPlugin::new("Metrics".to_string(), 60);
    metrics_plugin.configure("interval= +15 ");
    assert_eq!(metrics_plugin.interval(), 15);
    metrics_plugin.configure("interval=4294967295");
    assert_eq!(metrics_plugin.interval(), 4294967295);
    metrics_plugin.configure("interval=4294967296");
    assert_eq!(metrics_plugin.interval(), 4294967295);
    metrics_plugin.configure("interval=-1");
    assert_eq!(metrics_plugin.interval(), 4294967295);
}

use std::time::Duration;

use sandbag::performance::PerformanceMonitor;

#[test]
fn test_performance_monitor_creation() {
    let monitor = PerformanceMonitor::new();
    let stats = monitor.get_statistics();
    assert_eq!(stats.total_operations, 0);
}

#[test]
fn test_operation_recording() {
    let mut monitor = PerformanceMonitor::new();
    monitor.record_operation("test", Duration::from_millis(100).as_nanos(), 1024);

    let stats = monitor.get_statistics();
    assert_eq!(stats.total_operations, 1);
    assert_eq!(stats.total_duration, Duration::from_millis(100).as_nanos());
    assert_eq!(stats.total_memory_usage, 1024);
}

#[test]
fn test_uptime() {
    let monitor = PerformanceMonitor::new();
    let uptime = monitor.get_uptime();
    assert!(uptime > Duration::ZERO.as_nanos());
}

#[test]
fn statistics_pick_extremes_and_average_like_duration() {
    let mut monitor = PerformanceMonitor::new();
    monitor.record_operation("a", 1_000_000_002, 10);
    monitor.record_operation("b", 5, 20);
    monitor.record_operation("c", 1_000_000_002, 30);
    monitor.record_operation("d", 5, 40);
    let stats = monitor.get_statistics();
    assert_eq!(stats.total_operations, 4);
    assert_eq!(stats.total_duration, 2_000_000_014);
    let expected = Duration::from_nanos(2_000_000_014) / 4;
    assert_eq!(stats.average_duration, expected.as_nanos());
    assert_eq!(stats.average_memory_usage, 25);
    assert_eq!(stats.slowest_operation.unwrap().name, "c");
    assert_eq!(stats.fastest_operation.unwrap().name, "b");
    monitor.clear_history();
    assert_eq!(monitor.get_statistics().total_operations, 0);
}

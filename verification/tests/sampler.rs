use bar_core::components::network_usage::{counter_outcome, select_bytes, DeviceCounters};
use bar_core::{ComponentError, Direction, ErrorKind, NetworkUsage, Scale};

fn sampler(buffer_size: usize) -> NetworkUsage {
    let mut conf = NetworkUsage::default();
    conf.buffer_size = buffer_size;
    conf.sample_duration = 1;
    conf
}

#[test]
fn default_configuration() {
    let conf = NetworkUsage::default();
    assert_eq!(conf.interface, "eth0");
    assert!(matches!(conf.direction, Direction::Incoming));
    assert!(matches!(conf.scale, Scale::Binary));
    assert_eq!(conf.percision, 3);
    assert_eq!(conf.refresh_frequency, 10);
    assert_eq!(conf.sample_duration, 1);
    assert!(conf.buffer.is_empty());
    assert_eq!(conf.buffer_size, 5);
}

#[test]
fn history_never_outgrows_its_capacity() {
    let mut s = sampler(5);
    for cycle in 0..20u64 {
        let text = s.cycle_text(0, cycle * 100);
        assert!(text.is_some());
        assert!(s.buffer.len() <= s.buffer_size);
    }
    assert_eq!(s.buffer.len(), 5);
}

#[test]
fn newest_rate_goes_first_and_oldest_is_evicted() {
    let mut s = sampler(2);
    s.cycle_text(0, 10);
    s.cycle_text(0, 20);
    assert_eq!(s.buffer, vec![20, 10]);
    s.cycle_text(0, 30);
    assert_eq!(s.buffer, vec![30, 20]);
}

#[test]
fn rate_divides_by_the_sampling_window() {
    let mut s = sampler(3);
    s.sample_duration = 5;
    s.cycle_text(100, 600);
    assert_eq!(s.buffer, vec![100]);
}

#[test]
fn cycle_formats_the_smoothed_mean() {
    let mut s = sampler(1);
    let text = s.cycle_text(0, 2048).expect("a cycle emits one item");
    assert_eq!(text, "2.00 KiB/s");
}

#[test]
fn mean_truncates() {
    let mut s = sampler(5);
    s.cycle_text(0, 1);
    let text = s.cycle_text(0, 2).expect("a cycle emits one item");
    // history is [2, 1]; the integer mean of 3 / 2 is 1
    assert_eq!(text, "1.00 B/s");
}

#[test]
fn a_decreasing_counter_skips_the_cycle() {
    let mut s = sampler(3);
    s.cycle_text(0, 500);
    let skipped = s.cycle_text(800, 300);
    assert!(skipped.is_none());
    assert_eq!(s.buffer, vec![500]);
}

#[test]
fn select_bytes_picks_the_named_device_and_direction() {
    let devices = vec![
        DeviceCounters { interface: "lo".to_string(), receive_bytes: 1, transmit_bytes: 2 },
        DeviceCounters { interface: "eth0".to_string(), receive_bytes: 30, transmit_bytes: 40 },
    ];
    let name = "eth0".to_string();
    assert_eq!(select_bytes(&devices, &name, Direction::Incoming), Some(30));
    assert_eq!(select_bytes(&devices, &name, Direction::Outgoing), Some(40));
}

#[test]
fn select_bytes_takes_the_first_match() {
    let devices = vec![
        DeviceCounters { interface: "a".to_string(), receive_bytes: 1, transmit_bytes: 2 },
        DeviceCounters { interface: "a".to_string(), receive_bytes: 3, transmit_bytes: 4 },
    ];
    let name = "a".to_string();
    assert_eq!(select_bytes(&devices, &name, Direction::Incoming), Some(1));
}

#[test]
fn select_bytes_of_an_unknown_name() {
    let devices = vec![DeviceCounters {
        interface: "lo".to_string(),
        receive_bytes: 1,
        transmit_bytes: 2,
    }];
    let name = "missing0".to_string();
    assert_eq!(select_bytes(&devices, &name, Direction::Incoming), None);
}

#[test]
fn a_counter_lookup_maps_to_a_cycle_outcome() {
    assert!(matches!(counter_outcome(Ok(Some(42))), Ok(42)));
    let vanished = counter_outcome(Ok(None)).err().expect("a vanished interface errors");
    assert_eq!(vanished.kind, ErrorKind::Configuration);
    assert_eq!(vanished.context, vec!["No such network interface".to_string()]);
    let read_failed = ComponentError::new(ErrorKind::Io, "read failed".to_string());
    let passed = counter_outcome(Err(read_failed)).err().expect("a failed read errors");
    assert_eq!(passed.kind, ErrorKind::Io);
    assert_eq!(passed.context, vec!["read failed".to_string()]);
}

#[test]
fn confirming_an_interface_follows_the_device_table() {
    let devices = vec![DeviceCounters {
        interface: "eth0".to_string(),
        receive_bytes: 1,
        transmit_bytes: 2,
    }];
    let conf = NetworkUsage::default();
    assert!(conf.confirm_interface(&devices).is_ok());
    let empty: Vec<DeviceCounters> = Vec::new();
    let error = conf.confirm_interface(&empty).err().expect("no device matches");
    assert_eq!(error.kind, bar_core::ErrorKind::Configuration);
    assert_eq!(error.context, vec!["No such network interface".to_string()]);
}

use deskctrl::data::StorageUnit;
use deskctrl::network_watcher::{NetworkWatcher, Reading};
use deskctrl::watcher::{CpuStage, CpuStep, CpuWatcher, DiskWatcher, MemoryWatcher};
use std::time::Duration;

fn reading(interface: &str, rx: u64, tx: u64) -> Reading {
    Reading {
        interface: interface.to_string(),
        rx,
        tx,
    }
}

fn received(watcher: &NetworkWatcher) -> Vec<(String, Vec<u64>)> {
    watcher
        .report()
        .into_iter()
        .map(|(interface, samples)| (interface, samples.iter().map(|sample| sample.rx).collect()))
        .collect()
}

#[test]
fn a_report_is_due_every_so_many_rounds() {
    let mut watcher = NetworkWatcher::new(Duration::from_millis(250), 4);
    assert_eq!(watcher.period(), Duration::from_millis(250));
    assert_eq!(watcher.sample_count(), 4);
    for round in 1..=20 {
        let due = watcher.take_round(&vec![], Duration::from_millis(250));
        assert_eq!(due, round % 4 == 0);
    }
}

#[test]
fn a_report_after_every_round() {
    let mut watcher = NetworkWatcher::new(Duration::from_secs(1), 1);
    assert!(watcher.take_round(&vec![reading("lo", 1, 2)], Duration::from_secs(1)));
    assert!(watcher.take_round(&vec![reading("lo", 3, 4)], Duration::from_secs(1)));
    assert_eq!(received(&watcher), vec![("lo".to_string(), vec![3])]);
}

#[test]
fn a_report_covers_the_last_rounds() {
    let mut watcher = NetworkWatcher::new(Duration::from_secs(1), 3);
    assert_eq!(received(&watcher), vec![]);
    for round in 1..=3 {
        watcher.take_round(
            &vec![reading("lo", round, 0), reading("eth0", 10 * round, 0)],
            Duration::from_secs(round),
        );
    }
    assert_eq!(
        received(&watcher),
        vec![
            ("lo".to_string(), vec![1, 2, 3]),
            ("eth0".to_string(), vec![10, 20, 30])
        ]
    );
    watcher.take_round(&vec![reading("lo", 4, 0)], Duration::from_secs(1));
    assert_eq!(
        received(&watcher),
        vec![
            ("lo".to_string(), vec![4, 2, 3]),
            ("eth0".to_string(), vec![10, 20, 30])
        ]
    );
}

#[test]
fn a_sample_holds_what_was_read() {
    let mut watcher = NetworkWatcher::new(Duration::from_secs(1), 2);
    watcher.take_round(&vec![reading("lo", 5, 6)], Duration::from_millis(300));
    let report = watcher.report();
    assert_eq!(report.len(), 1);
    assert_eq!(report[0].1.len(), 1);
    assert_eq!(report[0].1[0].rx, 5);
    assert_eq!(report[0].1[0].tx, 6);
    assert_eq!(report[0].1[0].time, Duration::from_millis(300));
}

#[test]
fn disks_are_measured() {
    let watcher = DiskWatcher::new(Duration::from_secs(2));
    assert_eq!(watcher.period, Duration::from_secs(2));
    let (used, total) = watcher.measure(3 << 40, 1 << 40);
    assert_eq!((used.bytes, used.unit), (2 << 40, StorageUnit::Terabyte));
    assert_eq!((total.bytes, total.unit), (3 << 40, StorageUnit::Terabyte));
    let (used, total) = watcher.measure(0, 0);
    assert_eq!((used.unit, total.unit), (StorageUnit::Byte, StorageUnit::Byte));
}

#[test]
fn memory_is_measured_in_megabytes_at_most() {
    let watcher = MemoryWatcher::new(Duration::from_secs(1));
    assert_eq!(watcher.period, Duration::from_secs(1));
    let (used, total) = watcher.measure(2000, 16 << 30);
    assert_eq!((used.unit, used.unit_size), (StorageUnit::Kilobyte, 1024));
    assert_eq!((total.unit, total.unit_size), (StorageUnit::Megabyte, 1 << 20));
}

#[test]
fn processors_are_not_read_too_often() {
    let minimum = Duration::from_millis(200);
    let watcher = CpuWatcher::new(Duration::from_millis(500));
    assert_eq!(watcher.interval(minimum), Duration::from_millis(500));
    let watcher = CpuWatcher::new(Duration::from_millis(100));
    assert_eq!(watcher.interval(minimum), minimum);
    let watcher = CpuWatcher::new(Duration::from_nanos(199_999_999));
    assert_eq!(watcher.interval(minimum), minimum);
    let watcher = CpuWatcher::new(Duration::from_secs(3));
    assert_eq!(watcher.interval(minimum), Duration::from_secs(3));
}

#[test]
fn processors_are_read_twice_before_the_daemon_is_told() {
    let mut stage = CpuStage::Started;
    let mut steps = vec![];
    for _ in 0..7 {
        let (step, next) = stage.advance();
        steps.push(step);
        stage = next;
    }
    assert_eq!(
        steps,
        vec![
            CpuStep::Refresh,
            CpuStep::Wait,
            CpuStep::Refresh,
            CpuStep::Send,
            CpuStep::Wait,
            CpuStep::Refresh,
            CpuStep::Send,
        ]
    );
}

use deskctrl::binary64::Binary64;
use deskctrl::command::NotificationCommand;
use deskctrl::daemon::{Daemon, Effect};
use deskctrl::data::{DiskInfo, DiskUsage, MemoryUsage, NetworkUsage, StorageUnit};
use deskctrl::disk::DiskTable;
use deskctrl::ipc::{IpcRequest, IpcResponse};
use deskctrl::notification::EwwNotification;
use deskctrl::watcher::{Update, WindowEvent};
use std::path::PathBuf;

fn bits(value: f64) -> Binary64 {
    Binary64 {
        bits: value.to_bits(),
    }
}

fn disk(name: &str, mount_point: &str) -> DiskInfo {
    DiskInfo {
        name: name.to_string(),
        mount_point: mount_point.to_string(),
        removable: true,
        usage: DiskUsage {
            used: (bits(1.0), StorageUnit::Gigabyte),
            total: (bits(2.0), StorageUnit::Gigabyte),
            percent: bits(50.0),
        },
    }
}

fn notification(app_name: &str, id: u32, image: Option<&str>) -> EwwNotification {
    EwwNotification {
        id,
        timestamp: 0,
        app_name: app_name.to_string(),
        app_class: app_name.to_lowercase(),
        summary: String::new(),
        body: String::new(),
        app_icon: None,
        image_path: image.map(PathBuf::from),
        tmp_image: image.is_some(),
    }
}

fn window(class: &str) -> Update {
    Update::ActiveWindow(WindowEvent {
        window_class: class.to_string(),
    })
}

fn unused(effect: Effect) -> Vec<PathBuf> {
    match effect {
        Effect::Save { unused } => unused,
        other => panic!("{other:?}"),
    }
}

fn ids(daemon: &Daemon) -> Vec<u32> {
    daemon
        .groups()
        .into_iter()
        .flat_map(|group| group.notifications.iter().map(|n| n.id))
        .collect()
}

#[test]
fn a_new_daemon_knows_nothing() {
    let mut daemon = Daemon::new();
    assert!(daemon.running());
    assert!(ids(&daemon).is_empty());
    assert!(matches!(
        daemon.on_request(IpcRequest::Network),
        (IpcResponse::Network(network), Effect::Nothing) if network.entries().is_empty()
    ));
    assert!(matches!(
        daemon.on_request(IpcRequest::Disk),
        (IpcResponse::Disk(disks), Effect::Nothing) if disks.is_empty()
    ));
    assert!(matches!(
        daemon.on_request(IpcRequest::Memory),
        (IpcResponse::Memory(memory), Effect::Nothing) if memory == MemoryUsage::default()
    ));
    assert!(matches!(
        daemon.on_request(IpcRequest::Cpu),
        (IpcResponse::Cpu(cpu), Effect::Nothing) if cpu == bits(0.0)
    ));
}

#[test]
fn the_latest_measurements_are_answered() {
    let mut daemon = Daemon::new();
    let slow = NetworkUsage::at_rates(bits(1.0), bits(2.0));
    let fast = NetworkUsage::at_rates(bits(1e6), bits(2e6));
    daemon.on_update(Update::Network("eth0".to_string(), slow));
    daemon.on_update(Update::Network("lo".to_string(), slow));
    let effect = daemon.on_update(Update::Network("eth0".to_string(), fast));
    assert!(matches!(effect, Effect::Nothing));
    match daemon.on_request(IpcRequest::Network).0 {
        IpcResponse::Network(network) => {
            assert_eq!(network.get(&"eth0".to_string()), Some(&fast));
            assert_eq!(network.get(&"lo".to_string()), Some(&slow));
            assert_eq!(network.entries().len(), 2);
        }
        other => panic!("{other:?}"),
    }
    let memory = MemoryUsage {
        used: (bits(1.0), StorageUnit::Megabyte),
        total: (bits(4.0), StorageUnit::Megabyte),
        percent: bits(25.0),
    };
    daemon.on_update(Update::Memory(MemoryUsage::default()));
    daemon.on_update(Update::Memory(memory));
    daemon.on_update(Update::Cpu(bits(3.0)));
    daemon.on_update(Update::Cpu(bits(12.5)));
    assert!(matches!(
        daemon.on_request(IpcRequest::Memory).0,
        IpcResponse::Memory(m) if m == memory
    ));
    assert!(matches!(
        daemon.on_request(IpcRequest::Cpu).0,
        IpcResponse::Cpu(cpu) if cpu == bits(12.5)
    ));
}

#[test]
fn the_disks_are_replaced_as_a_whole() {
    let mut daemon = Daemon::new();
    let mut first = DiskTable::new();
    first.insert(disk("old", "/old"));
    daemon.on_update(Update::Disk(first));
    let mut second = DiskTable::new();
    second.insert(disk("systemd-1", "/auto"));
    second.insert(disk("b", "/b"));
    second.insert(disk("a", "/c"));
    second.insert(disk("a", "/efi"));
    daemon.on_update(Update::Disk(second));
    for _ in 0..2 {
        match daemon.on_request(IpcRequest::Disk).0 {
            IpcResponse::Disk(disks) => {
                let names: Vec<&str> = disks.iter().map(|disk| disk.name.as_str()).collect();
                assert_eq!(names, vec!["a", "b"]);
                assert!(disks[0].removable);
                assert_eq!(disks[0].mount_point, "/c");
            }
            other => panic!("{other:?}"),
        }
    }
}

#[test]
fn a_notification_waits_for_the_active_window() {
    let mut daemon = Daemon::new();
    match daemon.on_update(Update::Notification(notification("Mail", 3, None))) {
        Effect::AskActiveWindow(waiting) => assert_eq!(waiting.id, 3),
        other => panic!("{other:?}"),
    }
    assert!(ids(&daemon).is_empty());
}

#[test]
fn a_notification_of_the_active_window_is_dropped() {
    let mut daemon = Daemon::new();
    let effect = daemon.on_active_window(notification("Mail", 1, Some("/a")), Some("MAIL"), 1);
    assert!(matches!(effect, Effect::Nothing));
    assert!(ids(&daemon).is_empty());
}

#[test]
fn other_notifications_are_kept() {
    let mut daemon = Daemon::new();
    assert!(daemon.can_settle(&notification("Mail", 1, Some("/a")), Some("Chat")));
    let effect = daemon.on_active_window(notification("Mail", 1, Some("/a")), Some("Chat"), 1);
    assert!(unused(effect).is_empty());
    let effect = daemon.on_active_window(notification("Chat", 2, None), None, 2);
    assert!(unused(effect).is_empty());
    assert_eq!(ids(&daemon), vec![2, 1]);
    let effect = daemon.on_active_window(notification("Mail", 1, Some("/b")), None, 3);
    assert_eq!(unused(effect), vec![PathBuf::from("/a")]);
}

#[test]
fn the_focus_clears_the_notifications_of_a_window() {
    let mut daemon = Daemon::new();
    daemon.on_active_window(notification("Mail", 1, Some("/a")), None, 1);
    daemon.on_active_window(notification("Chat", 2, None), None, 2);
    assert_eq!(unused(daemon.on_update(window("Mail"))), vec![PathBuf::from("/a")]);
    assert_eq!(ids(&daemon), vec![2]);
    assert!(unused(daemon.on_update(window("Mail"))).is_empty());
    daemon.on_active_window(notification("Mail", 3, None), Some("Mail"), 3);
    assert_eq!(ids(&daemon), vec![2]);
}

#[test]
fn a_request_deletes_a_notification() {
    let mut daemon = Daemon::new();
    daemon.on_active_window(notification("Mail", 1, Some("/a")), None, 1);
    let delete = IpcRequest::Notification(NotificationCommand::Delete { id: 1 });
    match daemon.on_request(delete) {
        (IpcResponse::Notification, effect) => assert_eq!(unused(effect), vec![PathBuf::from("/a")]),
        other => panic!("{other:?}"),
    }
    assert!(ids(&daemon).is_empty());
    assert!(matches!(
        daemon.on_request(delete),
        (IpcResponse::Notification, Effect::Nothing)
    ));
    assert!(daemon.running());
}

#[test]
fn only_a_request_to_kill_ends_the_daemon() {
    let mut daemon = Daemon::new();
    daemon.on_update(Update::Cpu(bits(1.0)));
    daemon.on_request(IpcRequest::Cpu);
    assert!(daemon.running());
    assert!(matches!(
        daemon.on_request(IpcRequest::Kill),
        (IpcResponse::Killed, Effect::Nothing)
    ));
    assert!(!daemon.running());
}

#[test]
fn a_daemon_that_ends_gives_up_its_images() {
    let mut daemon = Daemon::new();
    daemon.on_active_window(notification("Mail", 1, Some("/a")), None, 1);
    daemon.on_active_window(notification("Chat", 2, Some("/b")), None, 2);
    daemon.on_request(IpcRequest::Kill);
    assert_eq!(daemon.cleanup(), vec![PathBuf::from("/a"), PathBuf::from("/b")]);
}

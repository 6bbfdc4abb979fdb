use deskctrl::binary64::Binary64;
use deskctrl::command::{check_user, Mode, NotificationCommand, RootError, Task};
use deskctrl::data::MemoryUsage;
use deskctrl::ipc::{printed, AgsResponse, IpcRequest, IpcResponse, Printed, SOCKET_PATH};
use deskctrl::table::Table;

#[test]
fn answers_keep_what_they_hold() {
    let cpu = Binary64 {
        bits: 42.5f64.to_bits(),
    };
    assert!(matches!(AgsResponse::from(IpcResponse::Cpu(cpu)), AgsResponse::Cpu(c) if c == cpu));
    assert!(matches!(
        IpcResponse::from(AgsResponse::from(IpcResponse::Cpu(cpu))),
        IpcResponse::Cpu(c) if c == cpu
    ));
    let memory = MemoryUsage::default();
    assert!(matches!(
        IpcResponse::from(AgsResponse::from(IpcResponse::Memory(memory))),
        IpcResponse::Memory(m) if m == memory
    ));
    assert!(matches!(
        IpcResponse::from(AgsResponse::from(IpcResponse::Disk(vec![]))),
        IpcResponse::Disk(disks) if disks.is_empty()
    ));
    assert!(matches!(
        IpcResponse::from(AgsResponse::from(IpcResponse::Network(Table::new()))),
        IpcResponse::Network(network) if network.entries().is_empty()
    ));
    assert!(matches!(
        IpcResponse::from(AgsResponse::from(IpcResponse::Notification)),
        IpcResponse::Notification
    ));
    assert!(matches!(
        IpcResponse::from(AgsResponse::from(IpcResponse::Killed)),
        IpcResponse::Killed
    ));
}

#[test]
fn changes_are_confirmed_in_words() {
    assert!(matches!(
        printed(IpcResponse::Killed),
        Printed::Line("Killed deskctrl daemon.")
    ));
    assert!(matches!(
        printed(IpcResponse::Notification),
        Printed::Line("Edited notifications.")
    ));
}

#[test]
fn measurements_are_printed_for_widgets() {
    let cpu = Binary64 { bits: 1 };
    assert!(matches!(
        printed(IpcResponse::Cpu(cpu)),
        Printed::Json(AgsResponse::Cpu(c)) if c == cpu
    ));
    assert!(matches!(
        printed(IpcResponse::Disk(vec![])),
        Printed::Json(AgsResponse::Disk(_))
    ));
    assert!(matches!(
        printed(IpcResponse::Memory(MemoryUsage::default())),
        Printed::Json(AgsResponse::Memory(_))
    ));
    assert!(matches!(
        printed(IpcResponse::Network(Table::new())),
        Printed::Json(AgsResponse::Network(_))
    ));
}

#[test]
fn the_socket_is_in_shared_memory() {
    assert_eq!(SOCKET_PATH, "/dev/shm/deskctrld.sock");
}

#[test]
fn modes_ask_the_daemon() {
    let delete = NotificationCommand::Delete { id: 5 };
    assert_eq!(Mode::Network.task(), Task::Ask(IpcRequest::Network));
    assert_eq!(Mode::Disk.task(), Task::Ask(IpcRequest::Disk));
    assert_eq!(Mode::Memory.task(), Task::Ask(IpcRequest::Memory));
    assert_eq!(Mode::Cpu.task(), Task::Ask(IpcRequest::Cpu));
    assert_eq!(Mode::Kill.task(), Task::Ask(IpcRequest::Kill));
    assert_eq!(
        Mode::Notification(delete).task(),
        Task::Ask(IpcRequest::Notification(delete))
    );
}

#[test]
fn modes_start_the_daemon() {
    assert_eq!(Mode::TestDaemon.task(), Task::RunDaemon);
    assert_eq!(Mode::Daemon.task(), Task::StartDaemon);
}

#[test]
fn the_administrator_is_refused() {
    assert_eq!(check_user(false, false), Ok(()));
    assert_eq!(check_user(true, false), Err(RootError));
    assert_eq!(check_user(false, true), Err(RootError));
    assert_eq!(check_user(true, true), Err(RootError));
    assert_eq!(
        RootError.message(),
        "Please do not run this program with root privileges."
    );
}

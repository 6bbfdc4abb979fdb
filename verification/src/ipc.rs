//! What the daemon is asked, and what it answers.
use crate::binary64::Binary64;
use crate::command::NotificationCommand;
use crate::data::{DiskInfo, MemoryUsage, NetworkUsage};
use crate::table::Table;
use vstd::prelude::*;

verus! {

/// Where the daemon listens.
pub const SOCKET_PATH: &'static str = "/dev/shm/deskctrld.sock";

/// A question to the daemon.
#[derive(Copy, Clone, PartialEq, Eq, Structural, PartialOrd, Ord, Hash, Debug)]
pub enum IpcRequest {
    Network,
    Disk,
    Memory,
    Cpu,
    Notification(NotificationCommand),
    Kill,
}

/// The daemon's answer. Between processes it is tagged.
#[derive(Clone, PartialEq, Debug)]
pub enum IpcResponse {
    Network(Table<NetworkUsage>),
    Disk(Vec<DiskInfo>),
    Memory(MemoryUsage),
    Cpu(Binary64),
    Notification,
    Killed,
}

/// An answer in the form in which widgets read it, without a tag.
#[derive(Clone, PartialEq, Debug)]
pub enum AgsResponse {
    Network(Table<NetworkUsage>),
    Disk(Vec<DiskInfo>),
    Memory(MemoryUsage),
    Cpu(Binary64),
    Notification,
    Killed,
}

/// An answer for widgets, with its tag.
pub open spec fn tagged(response: AgsResponse) -> IpcResponse {
    match response {
        AgsResponse::Network(network) => IpcResponse::Network(network),
        AgsResponse::Disk(disk) => IpcResponse::Disk(disk),
        AgsResponse::Memory(memory) => IpcResponse::Memory(memory),
        AgsResponse::Cpu(cpu) => IpcResponse::Cpu(cpu),
        AgsResponse::Notification => IpcResponse::Notification,
        AgsResponse::Killed => IpcResponse::Killed,
    }
}

/// An answer of the daemon, without its tag.
pub open spec fn untagged(response: IpcResponse) -> AgsResponse {
    match response {
        IpcResponse::Network(network) => AgsResponse::Network(network),
        IpcResponse::Disk(disk) => AgsResponse::Disk(disk),
        IpcResponse::Memory(memory) => AgsResponse::Memory(memory),
        IpcResponse::Cpu(cpu) => AgsResponse::Cpu(cpu),
        IpcResponse::Notification => AgsResponse::Notification,
        IpcResponse::Killed => AgsResponse::Killed,
    }
}

impl From<AgsResponse> for IpcResponse {
    fn from(value: AgsResponse) -> (response: Self) {
        match value {
            AgsResponse::Network(network) => Self::Network(network),
            AgsResponse::Disk(disk) => Self::Disk(disk),
            AgsResponse::Memory(memory) => Self::Memory(memory),
            AgsResponse::Cpu(cpu) => Self::Cpu(cpu),
            AgsResponse::Notification => Self::Notification,
            AgsResponse::Killed => Self::Killed,
        }
    }
}

impl vstd::std_specs::convert::FromSpecImpl<AgsResponse> for IpcResponse {
    open spec fn obeys_from_spec() -> bool {
        true
    }

    open spec fn from_spec(value: AgsResponse) -> Self {
        tagged(value)
    }
}

impl From<IpcResponse> for AgsResponse {
    fn from(value: IpcResponse) -> (response: Self) {
        match value {
            IpcResponse::Network(network) => Self::Network(network),
            IpcResponse::Disk(disk) => Self::Disk(disk),
            IpcResponse::Memory(memory) => Self::Memory(memory),
            IpcResponse::Cpu(cpu) => Self::Cpu(cpu),
            IpcResponse::Notification => Self::Notification,
            IpcResponse::Killed => Self::Killed,
        }
    }
}

impl vstd::std_specs::convert::FromSpecImpl<IpcResponse> for AgsResponse {
    open spec fn obeys_from_spec() -> bool {
        true
    }

    open spec fn from_spec(value: IpcResponse) -> Self {
        untagged(value)
    }
}

/// Nothing is lost when an answer loses its tag or gets one.
pub proof fn law_tags_come_and_go(response: IpcResponse, ags: AgsResponse)
    ensures
        tagged(untagged(response)) == response,
        untagged(tagged(ags)) == ags,
{
}

/// A window.
#[derive(Clone, PartialEq, Eq, PartialOrd, Ord, Hash, Debug, Default)]
pub struct WindowInfo {
    pub id: u64,
    pub wm_class: String,
    pub title: String,
    pub idx: usize,
}

/// What is printed when the daemon has answered.
#[derive(Clone, PartialEq, Debug)]
pub enum Printed {
    /// A line of text.
    Line(&'static str),
    /// The answer in the form for widgets.
    Json(AgsResponse),
}

/// What is printed for an answer.
pub fn printed(response: IpcResponse) -> (output: Printed)
    ensures
        match response {
            IpcResponse::Killed => output matches Printed::Line(line) && line@
                == "Killed deskctrl daemon."@,
            IpcResponse::Notification => output matches Printed::Line(line) && line@
                == "Edited notifications."@,
            _ => output == Printed::Json(untagged(response)),
        },
{
    match response {
        IpcResponse::Killed => Printed::Line("Killed deskctrl daemon."),
        IpcResponse::Notification => Printed::Line("Edited notifications."),
        _ => Printed::Json(AgsResponse::from(response)),
    }
}

/// An answer keeps its kind and what it holds when it loses its tag or gets one.
pub proof fn law_tags_keep_the_kind(response: IpcResponse, ags: AgsResponse)
    ensures
        match (response, untagged(response)) {
            (IpcResponse::Network(a), AgsResponse::Network(b)) => a == b,
            (IpcResponse::Disk(a), AgsResponse::Disk(b)) => a == b,
            (IpcResponse::Memory(a), AgsResponse::Memory(b)) => a == b,
            (IpcResponse::Cpu(a), AgsResponse::Cpu(b)) => a == b,
            (IpcResponse::Notification, AgsResponse::Notification) => true,
            (IpcResponse::Killed, AgsResponse::Killed) => true,
            _ => false,
        },
        match (ags, tagged(ags)) {
            (AgsResponse::Network(a), IpcResponse::Network(b)) => a == b,
            (AgsResponse::Disk(a), IpcResponse::Disk(b)) => a == b,
            (AgsResponse::Memory(a), IpcResponse::Memory(b)) => a == b,
            (AgsResponse::Cpu(a), IpcResponse::Cpu(b)) => a == b,
            (AgsResponse::Notification, IpcResponse::Notification) => true,
            (AgsResponse::Killed, IpcResponse::Killed) => true,
            _ => false,
        },
{
}

} // verus!

//! What the daemon knows, and how it answers and changes.
use crate::binary64::Binary64;
use crate::command::NotificationCommand;
use crate::data::{DiskInfo, MemoryUsage, NetworkUsage};
use crate::disk::DiskTable;
use crate::ipc::{IpcRequest, IpcResponse};
use crate::notification::EwwNotification;
use crate::notification_data::{Group, NotificationData};
use crate::notification_model::{GroupView, NotificationView};
use crate::path::PathKey;
use crate::table::Table;
use crate::text::to_lowercase;
use crate::watcher::{Update, WindowEvent};
use std::path::PathBuf;
use vstd::prelude::*;

verus! {

/// The latest measurements.
#[derive(Clone, PartialEq, Debug)]
pub struct SystemData {
    pub network: Table<NetworkUsage>,
    pub disk: DiskTable,
    pub memory: MemoryUsage,
    pub cpu: Binary64,
}

impl SystemData {
    /// The tables are in good order.
    pub open spec fn wf(self) -> bool {
        self.network.wf() && self.disk.wf()
    }
}

impl Default for SystemData {
    /// Nothing was measured yet.
    fn default() -> (data: Self)
        ensures
            data.wf(),
            data.network@ == Map::<Seq<char>, NetworkUsage>::empty(),
            data.disk@ == Map::<Seq<char>, DiskInfo>::empty(),
            data.memory == (MemoryUsage {
                used: (Binary64 { bits: 0 }, crate::data::StorageUnit::Byte),
                total: (Binary64 { bits: 0 }, crate::data::StorageUnit::Byte),
                percent: Binary64 { bits: 0 },
            }),
            data.cpu == (Binary64 { bits: 0 }),
    {
        SystemData {
            network: Table::new(),
            disk: DiskTable::new(),
            memory: MemoryUsage::default(),
            cpu: Binary64 { bits: 0 },
        }
    }
}

/// The state of the daemon.
#[derive(Debug)]
pub struct Daemon {
    system: SystemData,
    notifications: NotificationData,
    killed: bool,
}

/// What the daemon knows.
#[verifier::ext_equal]
pub struct DaemonView {
    pub network: Map<Seq<char>, NetworkUsage>,
    pub disk: Map<Seq<char>, DiskInfo>,
    pub memory: MemoryUsage,
    pub cpu: Binary64,
    pub notifications: NotificationView,
    pub killed: bool,
}

impl View for Daemon {
    type V = DaemonView;

    closed spec fn view(&self) -> DaemonView {
        DaemonView {
            network: self.system.network@,
            disk: self.system.disk@,
            memory: self.system.memory,
            cpu: self.system.cpu,
            notifications: self.notifications@,
            killed: self.killed,
        }
    }
}

/// What is to be done once the daemon has changed.
#[derive(Debug)]
pub enum Effect {
    /// Nothing.
    Nothing,
    /// Find out which window is active: the notification is kept unless it comes from that window.
    AskActiveWindow(EwwNotification),
    /// Delete the image files that are used no more, and write the notifications anew.
    Save { unused: Vec<PathBuf> },
}

impl DaemonView {
    /// What the daemon knows after an update. A notification changes nothing before the active
    /// window is known.
    pub open spec fn updated(self, update: Update) -> Self {
        match update {
            Update::Network(interface, usage) => DaemonView {
                network: self.network.insert(interface@, usage),
                ..self
            },
            Update::Disk(disk) => DaemonView { disk: disk@, ..self },
            Update::Memory(memory) => DaemonView { memory, ..self },
            Update::Cpu(cpu) => DaemonView { cpu, ..self },
            Update::Notification(_) => self,
            Update::ActiveWindow(event) => DaemonView {
                notifications: self.notifications.cleared(
                    crate::text::lowercase(event.window_class@),
                ).0,
                ..self
            },
        }
    }

    /// What is to be done after an update.
    pub open spec fn update_effect(self, update: Update, effect: Effect) -> bool {
        match update {
            Update::Notification(notification) => effect == Effect::AskActiveWindow(notification),
            Update::ActiveWindow(event) => effect matches Effect::Save { unused }
                && crate::path::keys_of(unused@) == self.notifications.cleared(
                crate::text::lowercase(event.window_class@),
            ).1,
            _ => effect is Nothing,
        }
    }

    /// What the daemon knows of a notification once the class of the active window is known, if
    /// there is one.
    pub open spec fn settled(
        self,
        notification: EwwNotification,
        active_class: Option<&str>,
        now: u128,
    ) -> Self {
        if from_active_window(notification, active_class) {
            self
        } else {
            DaemonView { notifications: self.notifications.inserted(notification, now).0, ..self }
        }
    }

    /// What is to be done then: where the notification is kept, it takes the place of another one,
    /// of which the image may be used no more.
    pub open spec fn settle_effect(
        self,
        notification: EwwNotification,
        active_class: Option<&str>,
        now: u128,
        effect: Effect,
    ) -> bool {
        if from_active_window(notification, active_class) {
            effect is Nothing
        } else {
            effect matches Effect::Save { unused } && crate::path::keys_of(unused@)
                == match self.notifications.inserted(notification, now).1 {
                Some(path) => seq![path],
                None => Seq::empty(),
            }
        }
    }

    /// What the daemon knows after a request.
    pub open spec fn requested(self, request: IpcRequest) -> Self {
        match request {
            IpcRequest::Notification(NotificationCommand::Delete { id }) => DaemonView {
                notifications: self.notifications.without(id).0,
                ..self
            },
            IpcRequest::Kill => DaemonView { killed: true, ..self },
            _ => self,
        }
    }

    /// What the daemon answers.
    pub open spec fn answers(self, request: IpcRequest, response: IpcResponse) -> bool {
        match request {
            IpcRequest::Network => response matches IpcResponse::Network(network) && network.wf()
                && network@ == self.network,
            IpcRequest::Disk => response matches IpcResponse::Disk(list)
                && crate::disk::in_list_order(list@) && forall|disk: DiskInfo| #[trigger]
                list@.contains(disk) <==> self.disk.contains_key(disk.mount_point@)
                    && self.disk[disk.mount_point@] == disk && crate::disk::shown(disk),
            IpcRequest::Memory => response == IpcResponse::Memory(self.memory),
            IpcRequest::Cpu => response == IpcResponse::Cpu(self.cpu),
            IpcRequest::Notification(_) => response is Notification,
            IpcRequest::Kill => response is Killed,
        }
    }

    /// What is to be done after a request: a notification that was deleted takes with it the image
    /// that only it used.
    pub open spec fn request_effect(self, request: IpcRequest, effect: Effect) -> bool {
        match request {
            IpcRequest::Notification(NotificationCommand::Delete { id }) => {
                if crate::notification_model::id_group_place(self.notifications.groups, id)
                    < self.notifications.groups.len() {
                    effect matches Effect::Save { unused } && crate::path::keys_of(unused@)
                        == match self.notifications.without(id).1 {
                        Some(path) => seq![path],
                        None => Seq::empty(),
                    }
                } else {
                    effect is Nothing
                }
            },
            _ => effect is Nothing,
        }
    }
}

/// Whether a notification comes from the active window.
pub open spec fn from_active_window(
    notification: EwwNotification,
    active_class: Option<&str>,
) -> bool {
    active_class matches Some(class) && notification.app_class@ == crate::text::lowercase(class@)
}

/// The files of which there may be one.
fn at_most_one(file: Option<PathBuf>) -> (files: Vec<PathBuf>)
    ensures
        crate::path::keys_of(files@) == match file {
            Some(path) => seq![crate::path::key_of(path)],
            None => Seq::empty(),
        },
{
    let mut files: Vec<PathBuf> = Vec::new();
    match file {
        Some(path) => {
            files.push(path);
            assert(crate::path::keys_of(files@) =~= seq![crate::path::key_of(path)]);
        },
        None => {
            assert(crate::path::keys_of(files@) =~= Seq::empty());
        },
    }
    files
}

impl Daemon {
    /// What the daemon keeps is in good order.
    pub closed spec fn wf(self) -> bool {
        self.system.wf() && self.notifications.wf()
    }

    /// What the daemon keeps of the notifications is in the order that the laws speak of.
    pub proof fn lemma_wf(self)
        requires
            self.wf(),
        ensures
            self@.notifications.wf(),
    {
        self.notifications.lemma_wf();
    }

    /// A daemon that knows nothing yet.
    pub fn new() -> (daemon: Self)
        ensures
            daemon.wf(),
            daemon@.network == Map::<Seq<char>, NetworkUsage>::empty(),
            daemon@.disk == Map::<Seq<char>, DiskInfo>::empty(),
            daemon@.memory == (MemoryUsage {
                used: (Binary64 { bits: 0 }, crate::data::StorageUnit::Byte),
                total: (Binary64 { bits: 0 }, crate::data::StorageUnit::Byte),
                percent: Binary64 { bits: 0 },
            }),
            daemon@.cpu == (Binary64 { bits: 0 }),
            daemon@.notifications.groups == Seq::<GroupView>::empty(),
            daemon@.notifications.images == Map::<PathKey, nat>::empty(),
            !daemon@.killed,
    {
        Daemon {
            system: SystemData::default(),
            notifications: NotificationData::new(),
            killed: false,
        }
    }

    /// Whether the daemon goes on.
    pub fn running(&self) -> (running: bool)
        ensures
            running == !self@.killed,
    {
        !self.killed
    }

    /// Takes in what a watcher tells.
    pub fn on_update(&mut self, update: Update) -> (effect: Effect)
        requires
            old(self).wf(),
            update matches Update::Disk(disk) ==> disk.wf(),
        ensures
            final(self).wf(),
            final(self)@ == old(self)@.updated(update),
            old(self)@.update_effect(update, effect),
    {
        match update {
            Update::Network(interface, usage) => {
                self.system.network.insert(interface, usage);
                Effect::Nothing
            },
            Update::Disk(disk) => {
                self.system.disk = disk;
                Effect::Nothing
            },
            Update::Memory(memory) => {
                self.system.memory = memory;
                Effect::Nothing
            },
            Update::Cpu(cpu) => {
                self.system.cpu = cpu;
                Effect::Nothing
            },
            Update::Notification(notification) => Effect::AskActiveWindow(notification),
            Update::ActiveWindow(event) => {
                let unused = self.notifications.clear_class(event.window_class.as_str());
                Effect::Save { unused }
            },
        }
    }

    /// Whether a notification comes from the active window, which has the focus already. The class
    /// of the window is given if there is one.
    fn is_focused(notification: &EwwNotification, active_class: Option<&str>) -> (focused: bool)
        ensures
            focused == from_active_window(*notification, active_class),
    {
        match active_class {
            Some(class) => notification.app_class == to_lowercase(class),
            None => false,
        }
    }

    /// Whether the image of a notification can be counted once more, if it has to be.
    pub fn can_settle(&self, notification: &EwwNotification, active_class: Option<&str>) -> (can:
        bool)
        requires
            self.wf(),
        ensures
            can == (from_active_window(*notification, active_class) || crate::images::room_for(
                self@.notifications.images,
                *notification,
            )),
    {
        Self::is_focused(notification, active_class) || self.notifications.can_insert(notification)
    }

    /// Keeps a notification that came at the time `now`, unless it comes from the active window.
    /// The class of that window is given if there is one.
    pub fn on_active_window(
        &mut self,
        notification: EwwNotification,
        active_class: Option<&str>,
        now: u128,
    ) -> (effect: Effect)
        requires
            old(self).wf(),
            from_active_window(notification, active_class) || crate::images::room_for(
                old(self)@.notifications.images,
                notification,
            ),
        ensures
            final(self).wf(),
            final(self)@ == old(self)@.settled(notification, active_class, now),
            old(self)@.settle_effect(notification, active_class, now, effect),
    {
        if Self::is_focused(&notification, active_class) {
            Effect::Nothing
        } else {
            let unused = self.notifications.insert_or_replace(notification, now);
            Effect::Save { unused: at_most_one(unused) }
        }
    }

    /// Answers a request.
    pub fn on_request(&mut self, request: IpcRequest) -> (answer: (IpcResponse, Effect))
        requires
            old(self).wf(),
        ensures
            final(self).wf(),
            final(self)@ == old(self)@.requested(request),
            old(self)@.answers(request, answer.0),
            old(self)@.request_effect(request, answer.1),
    {
        match request {
            IpcRequest::Network => {
                (IpcResponse::Network(self.system.network.duplicate()), Effect::Nothing)
            },
            IpcRequest::Disk => (IpcResponse::Disk(self.system.disk.listed()), Effect::Nothing),
            IpcRequest::Memory => (IpcResponse::Memory(self.system.memory), Effect::Nothing),
            IpcRequest::Cpu => (IpcResponse::Cpu(self.system.cpu), Effect::Nothing),
            IpcRequest::Notification(NotificationCommand::Delete { id }) => {
                let effect = match self.notifications.remove(id) {
                    Some(unused) => Effect::Save { unused: at_most_one(unused) },
                    None => Effect::Nothing,
                };
                (IpcResponse::Notification, effect)
            },
            IpcRequest::Kill => {
                self.killed = true;
                (IpcResponse::Killed, Effect::Nothing)
            },
        }
    }

    /// The groups of notifications, in the order in which they are shown.
    pub fn groups(&self) -> (groups: Vec<&Group>)
        requires
            self.wf(),
        ensures
            crate::group_order::in_shown_order(crate::group_order::views(groups@)),
            crate::group_order::views(groups@).to_multiset()
                == self@.notifications.groups.to_multiset(),
    {
        self.notifications.groups()
    }

    /// Ends the daemon. Gives the image files that are used no more.
    pub fn cleanup(self) -> (unused: Vec<PathBuf>)
        requires
            self.wf(),
        ensures
            crate::path::keys_of(unused@) == crate::images::all_released(
                self@.notifications.images,
                crate::notification_model::all_from_oldest(self@.notifications.groups),
            ).1,
    {
        self.notifications.cleanup()
    }
}

/// What happens to the daemon.
pub enum Event<'a> {
    /// A watcher tells something.
    Update(Update),
    /// The class of the active window is found out for a notification that came at some time.
    Settled(EwwNotification, Option<&'a str>, u128),
    /// A request comes.
    Request(IpcRequest),
}

impl DaemonView {
    /// What the daemon knows after an event.
    pub open spec fn after(self, event: Event) -> Self {
        match event {
            Event::Update(update) => self.updated(update),
            Event::Settled(notification, active_class, now) => self.settled(
                notification,
                active_class,
                now,
            ),
            Event::Request(request) => self.requested(request),
        }
    }

    /// What the daemon knows after some events, one after the other.
    pub open spec fn after_all(self, events: Seq<Event>) -> Self
        decreases events.len(),
    {
        if events.len() == 0 {
            self
        } else {
            self.after_all(events.drop_last()).after(events.last())
        }
    }
}

/// What was told last of an interface, or else `known`.
pub open spec fn latest_network(
    events: Seq<Event>,
    interface: Seq<char>,
    known: Option<NetworkUsage>,
) -> Option<NetworkUsage>
    decreases events.len(),
{
    if events.len() == 0 {
        known
    } else {
        match events.last() {
            Event::Update(Update::Network(name, usage)) if name@ == interface => Some(usage),
            _ => latest_network(events.drop_last(), interface, known),
        }
    }
}

/// What was told last of the disks, or else `known`.
pub open spec fn latest_disks(
    events: Seq<Event>,
    known: Map<Seq<char>, DiskInfo>,
) -> Map<Seq<char>, DiskInfo>
    decreases events.len(),
{
    if events.len() == 0 {
        known
    } else {
        match events.last() {
            Event::Update(Update::Disk(disk)) => disk@,
            _ => latest_disks(events.drop_last(), known),
        }
    }
}

/// What was told last of the memory, or else `known`.
pub open spec fn latest_memory(events: Seq<Event>, known: MemoryUsage) -> MemoryUsage
    decreases events.len(),
{
    if events.len() == 0 {
        known
    } else {
        match events.last() {
            Event::Update(Update::Memory(memory)) => memory,
            _ => latest_memory(events.drop_last(), known),
        }
    }
}

/// What was told last of the processors, or else `known`.
pub open spec fn latest_cpu(events: Seq<Event>, known: Binary64) -> Binary64
    decreases events.len(),
{
    if events.len() == 0 {
        known
    } else {
        match events.last() {
            Event::Update(Update::Cpu(cpu)) => cpu,
            _ => latest_cpu(events.drop_last(), known),
        }
    }
}

/// Whatever happens, the daemon knows what it was told last of each interface, of the disks, of the
/// memory and of the processors, and it ends once a request asks it to.
pub proof fn law_knows_the_latest(daemon: DaemonView, events: Seq<Event>, interface: Seq<char>)
    ensures
        daemon.after_all(events).network.get(interface) == latest_network(
            events,
            interface,
            daemon.network.get(interface),
        ),
        daemon.after_all(events).disk == latest_disks(events, daemon.disk),
        daemon.after_all(events).memory == latest_memory(events, daemon.memory),
        daemon.after_all(events).cpu == latest_cpu(events, daemon.cpu),
        daemon.after_all(events).killed <==> daemon.killed || exists|i: int|
            0 <= i < events.len() && #[trigger] events[i] == Event::Request(IpcRequest::Kill),
    decreases events.len(),
{
    if events.len() > 0 {
        let before = events.drop_last();
        let last = events.len() - 1;
        law_knows_the_latest(daemon, before, interface);
        assert(events[last] == events.last());
        assert(forall|i: int| 0 <= i < last ==> before[i] == #[trigger] events[i]);
        if exists|i: int|
            0 <= i < before.len() && #[trigger] before[i] == Event::Request(IpcRequest::Kill) {
            let i = choose|i: int|
                0 <= i < before.len() && #[trigger] before[i] == Event::Request(IpcRequest::Kill);
            assert(events[i] == Event::Request(IpcRequest::Kill));
        }
    }
}

/// After any events, the daemon answers with what it was told last.
pub proof fn law_answers_are_the_latest(
    daemon: DaemonView,
    events: Seq<Event>,
    interface: Seq<char>,
    request: IpcRequest,
    response: IpcResponse,
)
    requires
        daemon.after_all(events).answers(request, response),
    ensures
        match response {
            IpcResponse::Network(network) => network@.get(interface) == latest_network(
                events,
                interface,
                daemon.network.get(interface),
            ),
            IpcResponse::Disk(list) => crate::disk::in_list_order(list@) && forall|
                disk: DiskInfo,
            | #[trigger]
                list@.contains(disk) <==> latest_disks(events, daemon.disk).contains_key(
                    disk.mount_point@,
                ) && latest_disks(events, daemon.disk)[disk.mount_point@] == disk
                    && crate::disk::shown(disk),
            IpcResponse::Memory(memory) => memory == latest_memory(events, daemon.memory),
            IpcResponse::Cpu(cpu) => cpu == latest_cpu(events, daemon.cpu),
            IpcResponse::Notification => request is Notification,
            IpcResponse::Killed => request is Kill,
        },
{
    law_knows_the_latest(daemon, events, interface);
}

/// An answer to a question depends only on what the daemon knows, so the same question twice in a
/// row has the same answer.
pub proof fn law_questions_change_nothing(
    daemon: DaemonView,
    request: IpcRequest,
    first: IpcResponse,
    second: IpcResponse,
)
    requires
        request !is Notification,
        request !is Kill,
        daemon.answers(request, first),
        daemon.requested(request).answers(request, second),
    ensures
        daemon.requested(request) == daemon,
        match first {
            IpcResponse::Network(table) => second matches IpcResponse::Network(again) && again@
                == table@,
            IpcResponse::Disk(list) => second matches IpcResponse::Disk(again) && again@ == list@,
            _ => second == first,
        },
{
    if let IpcRequest::Disk = request {
        let list = first->Disk_0@;
        let again = second->Disk_0@;
        assert forall|disk: DiskInfo|
            #![trigger list.contains(disk)]
            #![trigger again.contains(disk)]
            list.contains(disk) <==> again.contains(disk) by {}
        crate::disk::law_one_list(list, again);
    }
}

/// A request to kill the daemon ends it, and nothing else does.
pub proof fn law_only_kill_ends(
    daemon: DaemonView,
    update: Update,
    request: IpcRequest,
    notification: EwwNotification,
    active_class: Option<&str>,
    now: u128,
)
    requires
        !daemon.killed,
    ensures
        daemon.requested(request).killed <==> request is Kill,
        !daemon.updated(update).killed,
        !daemon.settled(notification, active_class, now).killed,
{
}

/// No notification of a class is kept.
pub open spec fn none_of_class(groups: Seq<GroupView>, class: Seq<char>) -> bool {
    forall|i: int, j: int|
        0 <= i < groups.len() && 0 <= j < groups[i].notifications.len() ==> (
        #[trigger] groups[i].notifications[j]).app_class@ != class
}

/// Once a window gets the focus, no notification of its class is kept.
pub proof fn law_focus_clears_the_class(daemon: DaemonView, event: WindowEvent)
    ensures
        none_of_class(
            daemon.updated(Update::ActiveWindow(event)).notifications.groups,
            crate::text::lowercase(event.window_class@),
        ),
{
    let class = crate::text::lowercase(event.window_class@);
    let groups = daemon.updated(Update::ActiveWindow(event)).notifications.groups;
    assert forall|i: int, j: int|
        0 <= i < groups.len() && 0 <= j < groups[i].notifications.len() implies (
    #[trigger] groups[i].notifications[j]).app_class@ != class by {
        crate::notification_model::law_clear_leaves_the_others(daemon.notifications, class, i);
        assert(groups[i].notifications.contains(groups[i].notifications[j]));
    }
}

/// As long as a window has the focus, none of the notifications that come is kept for its class.
pub proof fn law_focus_keeps_the_class_clear(
    daemon: DaemonView,
    notification: EwwNotification,
    class: &str,
    now: u128,
)
    requires
        none_of_class(daemon.notifications.groups, crate::text::lowercase(class@)),
    ensures
        none_of_class(
            daemon.settled(notification, Some(class), now).notifications.groups,
            crate::text::lowercase(class@),
        ),
{
    let lower = crate::text::lowercase(class@);
    let before = daemon.notifications.groups;
    let after = daemon.settled(notification, Some(class), now).notifications.groups;
    if !from_active_window(notification, Some(class)) {
        let place = crate::notification_model::group_place(before, notification.app_name@);
        crate::notification_model::lemma_group_found(before, notification.app_name@);
        let group = crate::notification_model::group_of(before, notification.app_name@);
        assert forall|i: int, j: int|
            0 <= i < after.len() && 0 <= j < after[i].notifications.len() implies (
        #[trigger] after[i].notifications[j]).app_class@ != lower by {
            if i != place {
                assert(after[i] == before[i]);
                assert(before[i].notifications[j].app_class@ != lower);
            } else if j > 0 {
                crate::notification_model::lemma_id_found(group.notifications, notification.id);
                let at = crate::notification_model::id_place(group.notifications, notification.id);
                let k = if j - 1 < at { j - 1 } else { j };
                let rest = crate::notification_model::without_id(
                    group.notifications,
                    notification.id,
                );
                assert(after[i].notifications[j] == rest[j - 1]);
                if place < before.len() {
                    if rest[j - 1] == group.notifications[k] {
                        assert(before[place].notifications[k].app_class@ != lower);
                    } else {
                        assert(before[place].notifications[j - 1].app_class@ != lower);
                    }
                }
            }
        }
    }
}

} // verus!

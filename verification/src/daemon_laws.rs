//! What updates, notifications and requests come to, field by field.
use crate::command::NotificationCommand;
use crate::daemon::{DaemonView, Effect};
use crate::data::DiskInfo;
use crate::ipc::{IpcRequest, IpcResponse};
use crate::notification::EwwNotification;
use crate::path::PathKey;
use crate::watcher::Update;
use vstd::prelude::*;

verus! {

/// An effect saves the notifications and deletes just the files that dropped out of the counts,
/// each once.
pub open spec fn saves_and_deletes(
    effect: Effect,
    before: Map<PathKey, nat>,
    after: Map<PathKey, nat>,
) -> bool {
    effect matches Effect::Save { unused } && {
        &&& forall|i: int, j: int|
            0 <= i < j < unused@.len() ==> crate::path::key_of(#[trigger] unused@[i])
                != crate::path::key_of(#[trigger] unused@[j])
        &&& forall|i: int|
            0 <= i < unused@.len() ==> before.contains_key(
                crate::path::key_of(#[trigger] unused@[i]),
            ) && !after.contains_key(crate::path::key_of(unused@[i]))
        &&& forall|file: PathKey| #[trigger]
            before.contains_key(file) && !after.contains_key(file) ==> exists|i: int|
                0 <= i < unused@.len() && crate::path::key_of(#[trigger] unused@[i]) == file
    }
}

proof fn lemma_deletes_one(
    effect: Effect,
    given_up: Option<PathKey>,
    before: Map<PathKey, nat>,
    after: Map<PathKey, nat>,
)
    requires
        effect matches Effect::Save { unused } && crate::path::keys_of(unused@) == match given_up {
            Some(path) => seq![path],
            None => Seq::empty(),
        },
        forall|file: PathKey|
            #![trigger before.contains_key(file)]
            #![trigger after.contains_key(file)]
            given_up == Some(file) <==> before.contains_key(file) && !after.contains_key(file),
    ensures
        saves_and_deletes(effect, before, after),
{
    let unused = effect->unused@;
    let keys = crate::path::keys_of(unused);
    assert(keys.len() == unused.len());
    assert forall|i: int| 0 <= i < unused.len() implies before.contains_key(
        crate::path::key_of(#[trigger] unused[i]),
    ) && !after.contains_key(crate::path::key_of(unused[i])) by {
        assert(keys[i] == crate::path::key_of(unused[i]));
        assert(given_up == Some(keys[i]));
    }
    assert forall|file: PathKey| #[trigger]
        before.contains_key(file) && !after.contains_key(file) implies exists|i: int|
        0 <= i < unused.len() && crate::path::key_of(#[trigger] unused[i]) == file by {
        assert(given_up == Some(file));
        assert(keys[0] == file);
        assert(crate::path::key_of(unused[0]) == file);
    }
}

proof fn lemma_deletes_all(
    effect: Effect,
    given_up: Seq<PathKey>,
    before: Map<PathKey, nat>,
    after: Map<PathKey, nat>,
)
    requires
        effect matches Effect::Save { unused } && crate::path::keys_of(unused@) == given_up,
        given_up.no_duplicates(),
        forall|file: PathKey| #[trigger]
            given_up.contains(file) <==> before.contains_key(file) && !after.contains_key(file),
    ensures
        saves_and_deletes(effect, before, after),
{
    let unused = effect->unused@;
    assert(given_up.len() == unused.len());
    assert forall|i: int, j: int| 0 <= i < j < unused.len() implies crate::path::key_of(
        #[trigger] unused[i],
    ) != crate::path::key_of(#[trigger] unused[j]) by {
        assert(given_up[i] == crate::path::key_of(unused[i]));
        assert(given_up[j] == crate::path::key_of(unused[j]));
    }
    assert forall|i: int| 0 <= i < unused.len() implies before.contains_key(
        crate::path::key_of(#[trigger] unused[i]),
    ) && !after.contains_key(crate::path::key_of(unused[i])) by {
        assert(given_up[i] == crate::path::key_of(unused[i]));
        assert(given_up.contains(given_up[i]));
    }
    assert forall|file: PathKey| #[trigger]
        before.contains_key(file) && !after.contains_key(file) implies exists|i: int|
        0 <= i < unused.len() && crate::path::key_of(#[trigger] unused[i]) == file by {
        assert(given_up.contains(file));
        let i = choose|i: int| 0 <= i < given_up.len() && given_up[i] == file;
        assert(crate::path::key_of(unused[i]) == file);
    }
}

/// A notification that comes while the active window has another class than its own, or while there
/// is no active window, is kept: the group of its application has it in front, and is as new as it.
/// Each other group stays as it is. One that comes from the active window, whose class in lower
/// case is its own, changes nothing. What was measured is not touched.
pub proof fn law_notification_is_kept_unless_focused(
    daemon: DaemonView,
    notification: EwwNotification,
    active_class: Option<&str>,
    now: u128,
    effect: Effect,
)
    requires
        daemon.notifications.wf(),
        daemon.settle_effect(notification, active_class, now, effect),
    ensures
        ({
            let after = daemon.settled(notification, active_class, now);
            &&& after.network == daemon.network
            &&& after.disk == daemon.disk
            &&& after.memory == daemon.memory
            &&& after.cpu == daemon.cpu
            &&& after.killed == daemon.killed
            &&& (active_class matches Some(class) && crate::text::lowercase(class@)
                == notification.app_class@) ==> after == daemon && effect is Nothing
            &&& (active_class is None || crate::text::lowercase(active_class->0@)
                != notification.app_class@) ==> {
                &&& exists|g: int|
                    {
                        &&& 0 <= g < after.notifications.groups.len()
                        &&& (#[trigger] after.notifications.groups[g]).app_name
                            == notification.app_name@
                        &&& after.notifications.groups[g].timestamp == now
                        &&& after.notifications.groups[g].notifications.len() > 0
                        &&& after.notifications.groups[g].notifications[0] == notification
                    }
                &&& forall|g: int|
                    0 <= g < daemon.notifications.groups.len() ==> {
                        &&& g < after.notifications.groups.len()
                        &&& (#[trigger] daemon.notifications.groups[g]).app_name
                            != notification.app_name@ ==> after.notifications.groups[g]
                            == daemon.notifications.groups[g]
                        &&& daemon.notifications.groups[g].app_name == notification.app_name@
                            ==> crate::notification_laws::has_in_front(
                            daemon.notifications.groups[g].notifications,
                            after.notifications.groups[g].notifications,
                            notification,
                        )
                    }
                &&& saves_and_deletes(
                    effect,
                    daemon.notifications.images,
                    after.notifications.images,
                )
            }
        }),
{
    let after = daemon.settled(notification, active_class, now);
    if active_class is None || crate::text::lowercase(active_class->0@)
        != notification.app_class@ {
        let groups = daemon.notifications.groups;
        crate::notification_laws::law_insert_in_detail(daemon.notifications, notification, now);
        let place = crate::notification_model::group_place(groups, notification.app_name@);
        crate::notification_model::lemma_group_found(groups, notification.app_name@);
        if place < groups.len() {
            assert(groups[place].app_name == notification.app_name@);
            assert(after.notifications.groups[place].app_name == notification.app_name@);
        } else {
            assert(after.notifications.groups[groups.len() as int].app_name
                == notification.app_name@);
        }
        lemma_deletes_one(
            effect,
            daemon.notifications.inserted(notification, now).1,
            daemon.notifications.images,
            after.notifications.images,
        );
    }
}

/// An update changes what it is about, and nothing else. A notification waits for the active window
/// to be found out. A window that gets the focus clears the notifications of its class in lower
/// case, and those only.
pub proof fn law_update_in_detail(daemon: DaemonView, update: Update, effect: Effect)
    requires
        daemon.notifications.wf(),
        daemon.update_effect(update, effect),
    ensures
        ({
            let after = daemon.updated(update);
            &&& after.killed == daemon.killed
            &&& after.network == match update {
                Update::Network(interface, usage) => daemon.network.insert(interface@, usage),
                _ => daemon.network,
            }
            &&& after.disk == match update {
                Update::Disk(disk) => disk@,
                _ => daemon.disk,
            }
            &&& after.memory == match update {
                Update::Memory(memory) => memory,
                _ => daemon.memory,
            }
            &&& after.cpu == match update {
                Update::Cpu(cpu) => cpu,
                _ => daemon.cpu,
            }
            &&& match update {
                Update::Notification(notification) => effect == Effect::AskActiveWindow(
                    notification,
                ) && after.notifications == daemon.notifications,
                Update::ActiveWindow(event) => {
                    let class = crate::text::lowercase(event.window_class@);
                    let groups = daemon.notifications.groups;
                    &&& after.notifications.groups.len() == groups.len()
                    &&& forall|g: int|
                        0 <= g < groups.len() ==> {
                            &&& (#[trigger] after.notifications.groups[g]).app_name
                                == groups[g].app_name
                            &&& after.notifications.groups[g].timestamp == groups[g].timestamp
                            &&& after.notifications.groups[g].notifications
                                == groups[g].notifications.filter(
                                |notification: EwwNotification| notification.app_class@ != class,
                            )
                        }
                    &&& saves_and_deletes(
                        effect,
                        daemon.notifications.images,
                        after.notifications.images,
                    )
                },
                _ => effect is Nothing && after.notifications == daemon.notifications,
            }
        }),
{
    if let Update::ActiveWindow(event) = update {
        let class = crate::text::lowercase(event.window_class@);
        let after = daemon.updated(update);
        let groups = daemon.notifications.groups;
        crate::notification_laws::law_clear_in_detail(daemon.notifications, class);
        assert forall|g: int| 0 <= g < groups.len() implies (
        #[trigger] after.notifications.groups[g]).notifications == groups[g].notifications.filter(
            |notification: EwwNotification| notification.app_class@ != class,
        ) by {
            crate::notification_laws::lemma_other_classes(groups[g].notifications, class);
        }
        lemma_deletes_all(
            effect,
            daemon.notifications.cleared(class).1,
            daemon.notifications.images,
            after.notifications.images,
        );
    }
}

/// Each request has its own answer. A question changes nothing, and is answered with what is known.
/// The disks of an answer are those of the table but for the name `systemd-1` and the mount point
/// `/efi`, ordered by name, and by mount point where the names are the same.
pub proof fn law_answer_in_detail(daemon: DaemonView, request: IpcRequest, response: IpcResponse)
    requires
        daemon.answers(request, response),
    ensures
        match request {
            IpcRequest::Network => daemon.requested(request) == daemon && (
            response matches IpcResponse::Network(network) && network@ == daemon.network),
            IpcRequest::Disk => daemon.requested(request) == daemon && (
            response matches IpcResponse::Disk(list) && {
                &&& forall|disk: DiskInfo| #[trigger]
                    list@.contains(disk) <==> {
                        &&& daemon.disk.contains_key(disk.mount_point@)
                        &&& daemon.disk[disk.mount_point@] == disk
                        &&& disk.name@ != "systemd-1"@
                        &&& disk.mount_point@ != "/efi"@
                    }
                &&& forall|i: int, j: int|
                    0 <= i < j < list@.len() ==> crate::text::text_lt(
                        (#[trigger] list@[i]).name@,
                        (#[trigger] list@[j]).name@,
                    ) || list@[i].name@ == list@[j].name@ && crate::text::text_lt(
                        list@[i].mount_point@,
                        list@[j].mount_point@,
                    )
            }),
            IpcRequest::Memory => daemon.requested(request) == daemon && response
                == IpcResponse::Memory(daemon.memory),
            IpcRequest::Cpu => daemon.requested(request) == daemon && response == IpcResponse::Cpu(
                daemon.cpu,
            ),
            IpcRequest::Notification(_) => response is Notification,
            IpcRequest::Kill => response is Killed && daemon.requested(request) == (DaemonView {
                killed: true,
                ..daemon
            }),
        },
{
}

/// A request to delete an id takes out the notification with that id, of the first group that has
/// one, and leaves the rest as it is, in its order. The notifications are saved if there was one,
/// and no other request saves them.
pub proof fn law_delete_in_detail(daemon: DaemonView, id: u32, effect: Effect)
    requires
        daemon.notifications.wf(),
        daemon.request_effect(
            IpcRequest::Notification(NotificationCommand::Delete { id }),
            effect,
        ),
    ensures
        ({
            let groups = daemon.notifications.groups;
            let after = daemon.requested(
                IpcRequest::Notification(NotificationCommand::Delete { id }),
            );
            &&& after.network == daemon.network
            &&& after.disk == daemon.disk
            &&& after.memory == daemon.memory
            &&& after.cpu == daemon.cpu
            &&& after.killed == daemon.killed
            &&& forall|g: int, p: int|
                0 <= g < groups.len() && 0 <= p < groups[g].notifications.len() && (
                #[trigger] groups[g].notifications[p]).id == id && (forall|h: int, q: int|
                    0 <= h < g && 0 <= q < groups[h].notifications.len() ==> (
                    #[trigger] groups[h].notifications[q]).id != id) ==> {
                    &&& after.notifications.groups.len() == groups.len()
                    &&& forall|h: int|
                        0 <= h < groups.len() && h != g ==> #[trigger] after.notifications.groups[h]
                            == groups[h]
                    &&& after.notifications.groups[g].app_name == groups[g].app_name
                    &&& after.notifications.groups[g].timestamp == groups[g].timestamp
                    &&& groups[g].notifications
                        == after.notifications.groups[g].notifications.insert(
                        p,
                        groups[g].notifications[p],
                    )
                    &&& saves_and_deletes(
                        effect,
                        daemon.notifications.images,
                        after.notifications.images,
                    )
                }
            &&& (forall|g: int, p: int|
                0 <= g < groups.len() && 0 <= p < groups[g].notifications.len() ==> (
                #[trigger] groups[g].notifications[p]).id != id) ==> after == daemon
                && effect is Nothing
        }),
{
    let groups = daemon.notifications.groups;
    let after = daemon.requested(IpcRequest::Notification(NotificationCommand::Delete { id }));
    crate::notification_laws::law_remove_in_detail(daemon.notifications, id);
    crate::notification_model::lemma_id_group_found(groups, id);
    let place = crate::notification_model::id_group_place(groups, id);
    if place < groups.len() {
        crate::notification_model::lemma_id_found(groups[place].notifications, id);
        let at = crate::notification_model::id_place(groups[place].notifications, id);
        assert(groups[place].notifications[at].id == id);
        lemma_deletes_one(
            effect,
            daemon.notifications.without(id).1,
            daemon.notifications.images,
            after.notifications.images,
        );
    } else {
        assert forall|g: int, p: int|
            0 <= g < groups.len() && 0 <= p < groups[g].notifications.len() implies (
        #[trigger] groups[g].notifications[p]).id != id by {
            crate::notification_model::lemma_id_found(groups[g].notifications, id);
            assert(!crate::notification_model::has_id(groups[g].notifications, id));
        }
    }
}

/// A request that deletes nothing asks for nothing to be saved.
pub proof fn law_other_requests_save_nothing(
    daemon: DaemonView,
    request: IpcRequest,
    effect: Effect,
)
    requires
        request !is Notification,
        daemon.request_effect(request, effect),
    ensures
        effect is Nothing,
        daemon.requested(request).notifications == daemon.notifications,
{
}

/// Whether a disk is listed depends on its name and its mount point alone, whatever its usage: two
/// that agree in those are both listed, or neither is, in the answers of daemons that have them.
pub proof fn law_listing_goes_by_name_and_mount_point(
    daemon: DaemonView,
    other: DaemonView,
    response: IpcResponse,
    other_response: IpcResponse,
    disk: DiskInfo,
    other_disk: DiskInfo,
)
    requires
        daemon.answers(IpcRequest::Disk, response),
        other.answers(IpcRequest::Disk, other_response),
        disk.name@ == other_disk.name@,
        disk.mount_point@ == other_disk.mount_point@,
        daemon.disk.contains_key(disk.mount_point@) && daemon.disk[disk.mount_point@] == disk,
        other.disk.contains_key(disk.mount_point@) && other.disk[disk.mount_point@] == other_disk,
    ensures
        response->Disk_0@.contains(disk) <==> other_response->Disk_0@.contains(other_disk),
        response->Disk_0@.contains(disk) <==> disk.name@ != "systemd-1"@ && disk.mount_point@
            != "/efi"@,
{
}

} // verus!

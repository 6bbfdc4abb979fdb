//! What keeping, deleting and clearing notifications comes to, notification by notification.
use crate::notification::EwwNotification;
use crate::notification_model::{GroupView, NotificationView};
use crate::path::PathKey;
use vstd::prelude::*;

verus! {

/// A notification has its image in a file that was written to disk for it.
pub open spec fn uses_file(notification: EwwNotification, file: PathKey) -> bool {
    notification.tmp_image && (notification.image_path matches Some(path) && crate::path::key_of(
        path,
    ) == file)
}

/// The number that is written down for a file.
pub open spec fn count_of(counts: Map<PathKey, nat>, file: PathKey) -> int {
    if counts.contains_key(file) {
        counts[file] as int
    } else {
        0
    }
}

/// How many notifications use a file.
pub open spec fn users(notifications: Seq<EwwNotification>, file: PathKey) -> int {
    notifications.filter(|notification: EwwNotification| uses_file(notification, file)).len() as int
}

/// How many notifications of some groups use a file.
pub open spec fn users_in(groups: Seq<GroupView>, file: PathKey) -> int
    decreases groups.len(),
{
    if groups.len() == 0 {
        0
    } else {
        users_in(groups.drop_last(), file) + users(groups.last().notifications, file)
    }
}

proof fn lemma_users(notifications: Seq<EwwNotification>, file: PathKey)
    ensures
        users(notifications, file) == crate::images::holders(notifications, file),
    decreases notifications.len(),
{
    reveal(Seq::filter);
    if notifications.len() > 0 {
        lemma_users(notifications.drop_last(), file);
    }
}

proof fn lemma_users_in(groups: Seq<GroupView>, file: PathKey)
    ensures
        users_in(groups, file) == crate::notification_model::live(groups, file),
    decreases groups.len(),
{
    if groups.len() > 0 {
        lemma_users_in(groups.drop_last(), file);
        lemma_users(groups.last().notifications, file);
    }
}

/// A notification that comes or goes changes the count of its own file by one, and of no other. A
/// file that nothing is written down for stays so when a notification goes, and the file that is
/// given up is the one that drops out.
pub proof fn law_counts_change_by_one(
    counts: Map<PathKey, nat>,
    notification: EwwNotification,
    file: PathKey,
)
    requires
        forall|other: PathKey| #[trigger] counts.contains_key(other) ==> counts[other] > 0,
    ensures
        ({
            let more = crate::images::acquired(counts, notification);
            let (less, given_up) = crate::images::released(counts, notification);
            &&& count_of(more, file) == count_of(counts, file) + if uses_file(notification, file) {
                1int
            } else {
                0
            }
            &&& more.contains_key(file) <==> count_of(more, file) > 0
            &&& count_of(less, file) == if uses_file(notification, file) && count_of(counts, file)
                > 0 {
                count_of(counts, file) - 1
            } else {
                count_of(counts, file)
            }
            &&& less.contains_key(file) <==> count_of(less, file) > 0
            &&& given_up == Some(file) <==> counts.contains_key(file) && !less.contains_key(file)
        }),
{
}

/// There is room for one more use of a file as long as its count is not the largest of all.
pub proof fn law_room_for_one_more(counts: Map<PathKey, nat>, notification: EwwNotification)
    ensures
        crate::images::room_for(counts, notification) <==> (notification.tmp_image
            && notification.image_path is Some ==> count_of(
            counts,
            crate::path::key_of(notification.image_path->0),
        ) < usize::MAX),
{
}

/// `after` is `before` with `newest` in front: the one with its id is gone, and so is the last one
/// where there are more than 32. The others are there, in their order.
pub open spec fn has_in_front(
    before: Seq<EwwNotification>,
    after: Seq<EwwNotification>,
    newest: EwwNotification,
) -> bool {
    &&& after.len() > 0
    &&& after[0] == newest
    &&& forall|p: int|
        0 <= p < before.len() && (#[trigger] before[p]).id == newest.id ==> {
            &&& after.len() == before.len()
            &&& forall|i: int| 0 < i <= p ==> #[trigger] after[i] == before[i - 1]
            &&& forall|i: int| p < i < before.len() ==> #[trigger] after[i] == before[i]
        }
    &&& (forall|p: int| 0 <= p < before.len() ==> (#[trigger] before[p]).id != newest.id) ==> {
        &&& after.len() == if before.len() < 32 {
            before.len() + 1
        } else {
            32
        }
        &&& forall|i: int| 0 < i < after.len() ==> #[trigger] after[i] == before[i - 1]
    }
}

proof fn lemma_has_in_front(before: Seq<EwwNotification>, newest: EwwNotification)
    requires
        before.len() <= 32,
        crate::notification_model::ids_differ(before),
    ensures
        has_in_front(before, crate::notification_model::with_newest(before, newest), newest),
{
    let id = newest.id;
    let after = crate::notification_model::with_newest(before, newest);
    crate::notification_model::lemma_id_found(before, id);
    let place = crate::notification_model::id_place(before, id);
    assert forall|p: int| 0 <= p < before.len() && (#[trigger] before[p]).id == id implies {
        &&& after.len() == before.len()
        &&& forall|i: int| 0 < i <= p ==> #[trigger] after[i] == before[i - 1]
        &&& forall|i: int| p < i < before.len() ==> #[trigger] after[i] == before[i]
    } by {
        assert(place == p) by {
            if place < p {
                assert(before[place].id != before[p].id);
            }
        }
    }
}

/// A notification that is kept goes to the front of the group of its application, which is as new
/// as it from then on; where there was no group, there is one more. The other groups stay as they
/// are. The counts go up by the file of the notification, and down by that of the one with its id.
/// The file that is given up is the one that drops out.
pub proof fn law_insert_in_detail(data: NotificationView, newest: EwwNotification, now: u128)
    requires
        data.wf(),
    ensures
        ({
            let (after, given_up) = data.inserted(newest, now);
            let old_groups = data.groups;
            &&& forall|g: int|
                0 <= g < old_groups.len() && (#[trigger] old_groups[g]).app_name
                    == newest.app_name@ ==> {
                    &&& after.groups.len() == old_groups.len()
                    &&& forall|h: int|
                        0 <= h < old_groups.len() && h != g ==> #[trigger] after.groups[h]
                            == old_groups[h]
                    &&& after.groups[g].app_name == newest.app_name@
                    &&& after.groups[g].timestamp == now
                    &&& has_in_front(
                        old_groups[g].notifications,
                        after.groups[g].notifications,
                        newest,
                    )
                    &&& forall|p: int, file: PathKey|
                        0 <= p < old_groups[g].notifications.len() && (
                        #[trigger] old_groups[g].notifications[p]).id == newest.id
                            ==> #[trigger] count_of(after.images, file) == count_of(
                            data.images,
                            file,
                        ) + (if uses_file(newest, file) {
                            1int
                        } else {
                            0
                        }) - (if uses_file(old_groups[g].notifications[p], file) {
                            1int
                        } else {
                            0
                        })
                    &&& (forall|p: int|
                        0 <= p < old_groups[g].notifications.len() ==> (
                        #[trigger] old_groups[g].notifications[p]).id != newest.id) ==> forall|
                        file: PathKey,
                    | #[trigger]
                        count_of(after.images, file) == count_of(data.images, file) + (
                        if uses_file(newest, file) {
                            1int
                        } else {
                            0
                        })
                }
            &&& (forall|g: int|
                0 <= g < old_groups.len() ==> (#[trigger] old_groups[g]).app_name
                    != newest.app_name@) ==> {
                &&& after.groups == old_groups.push(
                    GroupView {
                        app_name: newest.app_name@,
                        notifications: seq![newest],
                        timestamp: now,
                    },
                )
                &&& forall|file: PathKey| #[trigger]
                    count_of(after.images, file) == count_of(data.images, file) + (if uses_file(
                        newest,
                        file,
                    ) {
                        1int
                    } else {
                        0
                    })
            }
            &&& forall|file: PathKey|
                #![trigger data.images.contains_key(file)]
                #![trigger after.images.contains_key(file)]
                given_up == Some(file) <==> data.images.contains_key(file)
                    && !after.images.contains_key(file)
        }),
{
    let name = newest.app_name@;
    let (after, given_up) = data.inserted(newest, now);
    let groups = data.groups;
    let place = crate::notification_model::group_place(groups, name);
    crate::notification_model::lemma_group_found(groups, name);
    let group = crate::notification_model::group_of(groups, name);
    crate::notification_model::lemma_id_found(group.notifications, newest.id);
    let at = crate::notification_model::id_place(group.notifications, newest.id);
    let counted = crate::images::acquired(data.images, newest);
    assert forall|file: PathKey| true implies {
        &&& #[trigger] count_of(counted, file) == count_of(data.images, file) + (if uses_file(
            newest,
            file,
        ) {
            1int
        } else {
            0
        })
        &&& counted.contains_key(file) ==> counted[file] > 0
    } by {
        law_counts_change_by_one(data.images, newest, file);
    }
    lemma_has_in_front(group.notifications, newest);
    if place < groups.len() {
        assert(groups[place].notifications == group.notifications);
        if at < group.notifications.len() {
            let old_one = group.notifications[at];
            assert forall|file: PathKey| true implies {
                &&& #[trigger] count_of(after.images, file) == count_of(data.images, file) + (
                if uses_file(newest, file) {
                    1int
                } else {
                    0
                }) - (if uses_file(old_one, file) {
                    1int
                } else {
                    0
                })
            } by {
                law_counts_change_by_one(counted, old_one, file);
                if uses_file(old_one, file) {
                    crate::images::lemma_holders_remove(group.notifications, at, file);
                    crate::notification_model::lemma_live_at_least(groups, place, file);
                    assert(crate::notification_model::live(groups, file)
                        <= crate::images::uses_of(data.images, file));
                }
            }
            assert forall|p: int|
                0 <= p < group.notifications.len() && (#[trigger] group.notifications[p]).id
                    == newest.id implies p == at by {
                if at < p {
                    assert(group.notifications[at].id != group.notifications[p].id);
                }
            }
        }
        assert forall|g: int| 0 <= g < groups.len() && (#[trigger] groups[g]).app_name
            == name implies g == place by {
            if place < g {
                assert(groups[place].app_name != groups[g].app_name);
            }
        }
    } else {
        assert(crate::notification_model::with_newest(Seq::empty(), newest) =~= seq![newest]);
        assert(after.groups =~= groups.push(
            GroupView { app_name: name, notifications: seq![newest], timestamp: now },
        ));
    }
    assert forall|file: PathKey|
        #![trigger data.images.contains_key(file)]
        #![trigger after.images.contains_key(file)]
        given_up == Some(file) <==> data.images.contains_key(file) && !after.images.contains_key(
            file,
        ) by {
        law_counts_change_by_one(data.images, newest, file);
        if at < group.notifications.len() {
            law_counts_change_by_one(counted, group.notifications[at], file);
            if uses_file(newest, file) && uses_file(group.notifications[at], file) {
                crate::images::lemma_holders_remove(group.notifications, at, file);
                crate::notification_model::lemma_live_at_least(groups, place, file);
                assert(crate::notification_model::live(groups, file) <= crate::images::uses_of(
                    data.images,
                    file,
                ));
            }
        }
    }
}

/// Deleting an id takes the notification with that id out of the first group that has one. The
/// others of the group stay, in their order: with the one that went put back in its place, the
/// group is what it was. Its name and time stay too, and so do the other groups. The counts go down
/// by the file of the notification, and the file that is given up is the one that drops out. Where
/// no notification has the id, nothing changes.
pub proof fn law_remove_in_detail(data: NotificationView, id: u32)
    requires
        data.wf(),
    ensures
        ({
            let (after, given_up) = data.without(id);
            &&& forall|g: int, p: int|
                0 <= g < data.groups.len() && 0 <= p < data.groups[g].notifications.len() && (
                #[trigger] data.groups[g].notifications[p]).id == id && (forall|h: int, q: int|
                    0 <= h < g && 0 <= q < data.groups[h].notifications.len() ==> (
                    #[trigger] data.groups[h].notifications[q]).id != id) ==> {
                    &&& after.groups.len() == data.groups.len()
                    &&& forall|h: int|
                        0 <= h < data.groups.len() && h != g ==> #[trigger] after.groups[h]
                            == data.groups[h]
                    &&& after.groups[g].app_name == data.groups[g].app_name
                    &&& after.groups[g].timestamp == data.groups[g].timestamp
                    &&& after.groups[g].notifications.len() + 1
                        == data.groups[g].notifications.len()
                    &&& data.groups[g].notifications == after.groups[g].notifications.insert(
                        p,
                        data.groups[g].notifications[p],
                    )
                    &&& forall|file: PathKey| #[trigger]
                        count_of(after.images, file) == count_of(data.images, file) - (
                        if uses_file(data.groups[g].notifications[p], file) {
                            1int
                        } else {
                            0
                        })
                }
            &&& (forall|g: int, p: int|
                0 <= g < data.groups.len() && 0 <= p < data.groups[g].notifications.len() ==> (
                #[trigger] data.groups[g].notifications[p]).id != id) ==> after == data
                && given_up is None
            &&& forall|file: PathKey|
                #![trigger data.images.contains_key(file)]
                #![trigger after.images.contains_key(file)]
                given_up == Some(file) <==> data.images.contains_key(file)
                    && !after.images.contains_key(file)
        }),
{
    let (after, given_up) = data.without(id);
    let groups = data.groups;
    let place = crate::notification_model::id_group_place(groups, id);
    crate::notification_model::lemma_id_group_found(groups, id);
    if place < groups.len() {
        let all = groups[place].notifications;
        crate::notification_model::lemma_id_found(all, id);
        let at = crate::notification_model::id_place(all, id);
        assert(all[at].id == id);
        assert forall|g: int, p: int|
            0 <= g < groups.len() && 0 <= p < groups[g].notifications.len() && (
            #[trigger] groups[g].notifications[p]).id == id && (forall|h: int, q: int|
                0 <= h < g && 0 <= q < groups[h].notifications.len() ==> (
                #[trigger] groups[h].notifications[q]).id != id) implies g == place && p == at by {
            if place < g {
                assert(groups[place].notifications[at].id != id);
            }
            if g < place {
                crate::notification_model::lemma_id_found(groups[g].notifications, id);
                assert(!crate::notification_model::has_id(groups[g].notifications, id));
            }
            if at < p {
                assert(all[at].id != all[p].id);
            }
        }
        assert(groups[place].notifications[at].id == id);
        assert(all =~= after.groups[place].notifications.insert(at, all[at]));
        assert forall|file: PathKey| #[trigger]
            count_of(after.images, file) == count_of(data.images, file) - (if uses_file(
                all[at],
                file,
            ) {
                1int
            } else {
                0
            }) by {
            law_counts_change_by_one(data.images, all[at], file);
            crate::images::lemma_holders_remove(all, at, file);
            crate::notification_model::lemma_live_at_least(groups, place, file);
            assert(crate::notification_model::live(groups, file) <= crate::images::uses_of(
                data.images,
                file,
            ));
        }
        assert forall|file: PathKey|
            #![trigger data.images.contains_key(file)]
            #![trigger after.images.contains_key(file)]
            given_up == Some(file) <==> data.images.contains_key(file)
                && !after.images.contains_key(file) by {
            law_counts_change_by_one(data.images, all[at], file);
        }
    } else {
        assert forall|g: int, p: int|
            0 <= g < groups.len() && 0 <= p < groups[g].notifications.len() implies (
        #[trigger] groups[g].notifications[p]).id != id by {
            crate::notification_model::lemma_id_found(groups[g].notifications, id);
            assert(!crate::notification_model::has_id(groups[g].notifications, id));
        }
    }
}

pub proof fn lemma_other_classes(notifications: Seq<EwwNotification>, class: Seq<char>)
    ensures
        crate::notification_model::not_of_class(notifications, class) == notifications.filter(
            |notification: EwwNotification| notification.app_class@ != class,
        ),
    decreases notifications.len(),
{
    reveal(Seq::filter);
    if notifications.len() > 0 {
        lemma_other_classes(notifications.drop_last(), class);
    }
}

/// Clearing a class leaves, of each group, the notifications of other classes in their order, and
/// its name and time. The counts go down by as many as use a file no more. The files that are given
/// up, each once, are those that drop out.
pub proof fn law_clear_in_detail(data: NotificationView, class: Seq<char>)
    requires
        data.wf(),
    ensures
        ({
            let (after, given_up) = data.cleared(class);
            &&& after.groups.len() == data.groups.len()
            &&& forall|g: int|
                0 <= g < data.groups.len() ==> {
                    &&& (#[trigger] after.groups[g]).app_name == data.groups[g].app_name
                    &&& after.groups[g].timestamp == data.groups[g].timestamp
                    &&& after.groups[g].notifications == data.groups[g].notifications.filter(
                        |notification: EwwNotification| notification.app_class@ != class,
                    )
                }
            &&& forall|file: PathKey| #[trigger]
                count_of(after.images, file) == count_of(data.images, file) - (users_in(
                    data.groups,
                    file,
                ) - users_in(after.groups, file))
            &&& forall|file: PathKey| #[trigger]
                given_up.contains(file) <==> data.images.contains_key(file)
                    && !after.images.contains_key(file)
            &&& given_up.no_duplicates()
        }),
{
    let (after, given_up) = data.cleared(class);
    let gone = crate::notification_model::all_of_class(data.groups, class);
    assert forall|g: int| 0 <= g < data.groups.len() implies (
    #[trigger] after.groups[g]).notifications == data.groups[g].notifications.filter(
        |notification: EwwNotification| notification.app_class@ != class,
    ) by {
        lemma_other_classes(data.groups[g].notifications, class);
    }
    assert forall|file: PathKey| #[trigger]
        crate::images::holders(gone, file) <= crate::images::uses_of(data.images, file) by {
        crate::notification_model::lemma_live_by_class(data.groups, class, file);
        assert(crate::notification_model::live(data.groups, file) <= crate::images::uses_of(
            data.images,
            file,
        ));
    }
    assert(crate::images::all_used(data.images));
    crate::images::law_release_counts_all(data.images, gone);
    assert forall|file: PathKey| #[trigger]
        count_of(after.images, file) == count_of(data.images, file) - (users_in(data.groups, file)
            - users_in(after.groups, file)) by {
        crate::notification_model::lemma_live_by_class(data.groups, class, file);
        lemma_users_in(data.groups, file);
        lemma_users_in(after.groups, file);
        assert(crate::images::uses_of(after.images, file) == crate::images::uses_of(
            data.images,
            file,
        ) - crate::images::holders(gone, file));
    }
    assert forall|file: PathKey| #[trigger]
        given_up.contains(file) <==> data.images.contains_key(file) && !after.images.contains_key(
            file,
        ) by {
        assert(crate::images::uses_of(after.images, file) == crate::images::uses_of(
            data.images,
            file,
        ) - crate::images::holders(gone, file));
    }
}

/// At the end a file is given up, once, if all of its count are notifications that are kept.
pub proof fn law_cleanup_in_detail(data: NotificationView)
    requires
        data.wf(),
    ensures
        ({
            let given_up = crate::images::all_released(
                data.images,
                crate::notification_model::all_from_oldest(data.groups),
            ).1;
            &&& given_up.no_duplicates()
            &&& forall|file: PathKey| #[trigger]
                given_up.contains(file) <==> 0 < users_in(data.groups, file) == count_of(
                    data.images,
                    file,
                )
        }),
{
    crate::notification_model::law_cleanup_gives_up_all(data);
    let given_up = crate::images::all_released(
        data.images,
        crate::notification_model::all_from_oldest(data.groups),
    ).1;
    assert forall|file: PathKey| #[trigger]
        given_up.contains(file) <==> 0 < users_in(data.groups, file) == count_of(
            data.images,
            file,
        ) by {
        lemma_users_in(data.groups, file);
    }
}

/// What is in good order: each application has one group, of at most 32 notifications of its own
/// with different ids, and no file is counted less often than it is used, nor with zero.
pub proof fn law_good_order_in_detail(data: NotificationView)
    ensures
        data.wf() <==> {
            &&& forall|g: int, h: int|
                0 <= g < h < data.groups.len() ==> (#[trigger] data.groups[g]).app_name != (
                #[trigger] data.groups[h]).app_name
            &&& forall|g: int|
                0 <= g < data.groups.len() ==> (#[trigger] data.groups[g]).notifications.len()
                    <= 32
            &&& forall|g: int, p: int|
                0 <= g < data.groups.len() && 0 <= p < data.groups[g].notifications.len() ==> (
                #[trigger] data.groups[g].notifications[p]).app_name@ == data.groups[g].app_name
            &&& forall|g: int, p: int, q: int|
                0 <= g < data.groups.len() && 0 <= p < q < data.groups[g].notifications.len() ==> (
                #[trigger] data.groups[g].notifications[p]).id != (
                #[trigger] data.groups[g].notifications[q]).id
            &&& forall|file: PathKey| #[trigger]
                data.images.contains_key(file) ==> data.images[file] > 0
            &&& forall|file: PathKey| #[trigger]
                users_in(data.groups, file) <= count_of(data.images, file)
        },
{
    if data.wf() {
        assert forall|file: PathKey| #[trigger]
            users_in(data.groups, file) <= count_of(data.images, file) by {
            lemma_users_in(data.groups, file);
            assert(crate::notification_model::live(data.groups, file) <= crate::images::uses_of(
                data.images,
                file,
            ));
        }
    }
    assert forall|file: PathKey| #[trigger]
        crate::notification_model::live(data.groups, file) == users_in(data.groups, file) by {
        lemma_users_in(data.groups, file);
    }
    if !data.wf() {
        if forall|file: PathKey| #[trigger]
            users_in(data.groups, file) <= count_of(data.images, file) {
            assert forall|file: PathKey| #[trigger]
                crate::notification_model::live(data.groups, file) <= crate::images::uses_of(
                    data.images,
                    file,
                ) by {
                assert(users_in(data.groups, file) <= count_of(data.images, file));
            }
        }
        if forall|g: int, p: int|
            0 <= g < data.groups.len() && 0 <= p < data.groups[g].notifications.len() ==> (
            #[trigger] data.groups[g].notifications[p]).app_name@ == data.groups[g].app_name {
            assert forall|g: int| 0 <= g < data.groups.len() implies
                crate::notification_model::all_named(
                (#[trigger] data.groups[g]).notifications,
                data.groups[g].app_name,
            ) by {
                assert forall|p: int| 0 <= p < data.groups[g].notifications.len() implies (
                #[trigger] data.groups[g].notifications[p]).app_name@
                    == data.groups[g].app_name by {}
            }
        }
    }
}

} // verus!

//! What is kept of the notifications, as sequences and maps, and what holds of it.
use crate::notification::{EwwNotification, NOTIFICATION_LIMIT};
use crate::path::PathKey;
use vstd::prelude::*;

verus! {

/// The notifications of one application, the newest first, and when the last one came.
#[verifier::ext_equal]
pub struct GroupView {
    pub app_name: Seq<char>,
    pub notifications: Seq<EwwNotification>,
    pub timestamp: u128,
}

/// All notifications that are kept, and how often each image is used.
#[verifier::ext_equal]
pub struct NotificationView {
    pub groups: Seq<GroupView>,
    pub images: Map<PathKey, nat>,
}

/// The place of the first notification with an id, or the number of notifications if there is none.
pub open spec fn id_place(notifications: Seq<EwwNotification>, id: u32) -> int
    decreases notifications.len(),
{
    if notifications.len() == 0 || notifications[0].id == id {
        0
    } else {
        1 + id_place(notifications.drop_first(), id)
    }
}

/// Whether there is a notification with an id.
pub open spec fn has_id(notifications: Seq<EwwNotification>, id: u32) -> bool {
    id_place(notifications, id) < notifications.len()
}

/// The notifications without the first one that has the given id.
pub open spec fn without_id(notifications: Seq<EwwNotification>, id: u32) -> Seq<EwwNotification> {
    if has_id(notifications, id) {
        notifications.remove(id_place(notifications, id))
    } else {
        notifications
    }
}

/// The notifications after a new one came: it takes the place of the one with its id, goes to the
/// front, and the last one goes if there are too many.
pub open spec fn with_newest(
    notifications: Seq<EwwNotification>,
    newest: EwwNotification,
) -> Seq<EwwNotification> {
    let all = seq![newest] + without_id(notifications, newest.id);
    if all.len() > NOTIFICATION_LIMIT {
        all.drop_last()
    } else {
        all
    }
}

/// The place of the group of an application, or the number of groups if it has none.
pub open spec fn group_place(groups: Seq<GroupView>, app_name: Seq<char>) -> int
    decreases groups.len(),
{
    if groups.len() == 0 || groups[0].app_name == app_name {
        0
    } else {
        1 + group_place(groups.drop_first(), app_name)
    }
}

/// The group of an application, which is empty if it has none yet.
pub open spec fn group_of(groups: Seq<GroupView>, app_name: Seq<char>) -> GroupView {
    if group_place(groups, app_name) < groups.len() {
        groups[group_place(groups, app_name)]
    } else {
        GroupView { app_name, notifications: Seq::empty(), timestamp: 0 }
    }
}

/// The groups with another group in the place of the one of its application.
pub open spec fn with_group(groups: Seq<GroupView>, group: GroupView) -> Seq<GroupView> {
    let place = group_place(groups, group.app_name);
    if place < groups.len() {
        groups.update(place, group)
    } else {
        groups.push(group)
    }
}

/// The place of the first group with a notification that has the given id, or the number of groups
/// if there is none.
pub open spec fn id_group_place(groups: Seq<GroupView>, id: u32) -> int
    decreases groups.len(),
{
    if groups.len() == 0 || has_id(groups[0].notifications, id) {
        0
    } else {
        1 + id_group_place(groups.drop_first(), id)
    }
}

/// The notifications that are of a class.
pub open spec fn of_class(
    notifications: Seq<EwwNotification>,
    class: Seq<char>,
) -> Seq<EwwNotification> {
    notifications.filter(|notification: EwwNotification| notification.app_class@ == class)
}

/// The notifications that are not of a class.
pub open spec fn not_of_class(
    notifications: Seq<EwwNotification>,
    class: Seq<char>,
) -> Seq<EwwNotification> {
    notifications.filter(|notification: EwwNotification| notification.app_class@ != class)
}

/// The notifications of all groups that are of a class, group by group.
pub open spec fn all_of_class(groups: Seq<GroupView>, class: Seq<char>) -> Seq<EwwNotification>
    decreases groups.len(),
{
    if groups.len() == 0 {
        Seq::empty()
    } else {
        all_of_class(groups.drop_last(), class) + of_class(groups.last().notifications, class)
    }
}

/// The notifications of all groups, group by group, each group from its oldest on.
pub open spec fn all_from_oldest(groups: Seq<GroupView>) -> Seq<EwwNotification>
    decreases groups.len(),
{
    if groups.len() == 0 {
        Seq::empty()
    } else {
        all_from_oldest(groups.drop_last()) + groups.last().notifications.reverse()
    }
}

/// How many of the notifications that are kept use a file.
pub open spec fn live(groups: Seq<GroupView>, path: PathKey) -> nat
    decreases groups.len(),
{
    if groups.len() == 0 {
        0
    } else {
        live(groups.drop_last(), path) + crate::images::holders(groups.last().notifications, path)
    }
}

/// No two notifications have the same id.
pub open spec fn ids_differ(notifications: Seq<EwwNotification>) -> bool {
    forall|i: int, j: int|
        0 <= i < j < notifications.len() ==> (#[trigger] notifications[i]).id != (
        #[trigger] notifications[j]).id
}

/// All notifications are of one application.
pub open spec fn all_named(notifications: Seq<EwwNotification>, app_name: Seq<char>) -> bool {
    forall|i: int|
        0 <= i < notifications.len() ==> (#[trigger] notifications[i]).app_name@ == app_name
}

impl NotificationView {
    /// Each application has one group, of at most [`NOTIFICATION_LIMIT`] notifications of its own
    /// with different ids, and no image is counted less often than it is used.
    pub open spec fn wf(self) -> bool {
        &&& forall|i: int, j: int|
            0 <= i < j < self.groups.len() ==> (#[trigger] self.groups[i]).app_name != (
            #[trigger] self.groups[j]).app_name
        &&& forall|i: int|
            0 <= i < self.groups.len() ==> (#[trigger] self.groups[i]).notifications.len()
                <= NOTIFICATION_LIMIT && ids_differ(self.groups[i].notifications) && all_named(
                self.groups[i].notifications,
                self.groups[i].app_name,
            )
        &&& forall|path: PathKey| #[trigger]
            self.images.contains_key(path) ==> self.images[path] > 0
        &&& forall|path: PathKey| #[trigger]
            live(self.groups, path) <= crate::images::uses_of(self.images, path)
    }

    /// Each image is counted just as often as it is used.
    pub open spec fn exact(self) -> bool {
        forall|path: PathKey| #[trigger]
            live(self.groups, path) == crate::images::uses_of(self.images, path)
    }

    /// What is kept after a notification came at the time `now`, and the file that is used no more,
    /// if there is one.
    pub open spec fn inserted(self, newest: EwwNotification, now: u128) -> (
        Self,
        Option<PathKey>,
    ) {
        let group = group_of(self.groups, newest.app_name@);
        let groups = with_group(
            self.groups,
            GroupView {
                app_name: group.app_name,
                notifications: with_newest(group.notifications, newest),
                timestamp: now,
            },
        );
        let counted = crate::images::acquired(self.images, newest);
        if has_id(group.notifications, newest.id) {
            let (images, unused) = crate::images::released(
                counted,
                group.notifications[id_place(group.notifications, newest.id)],
            );
            (NotificationView { groups, images }, unused)
        } else {
            (NotificationView { groups, images: counted }, None)
        }
    }

    /// What is kept after the first notification with an id was removed, and the file that is used
    /// no more, if there is one.
    pub open spec fn without(self, id: u32) -> (Self, Option<PathKey>) {
        let place = id_group_place(self.groups, id);
        if place < self.groups.len() {
            let group = self.groups[place];
            let (images, unused) = crate::images::released(
                self.images,
                group.notifications[id_place(group.notifications, id)],
            );
            let groups = self.groups.update(
                place,
                GroupView { notifications: without_id(group.notifications, id), ..group },
            );
            (NotificationView { groups, images }, unused)
        } else {
            (self, None)
        }
    }

    /// What is kept after all notifications of a class were removed, and the files that are used no
    /// more.
    pub open spec fn cleared(self, class: Seq<char>) -> (Self, Seq<PathKey>) {
        let (images, unused) = crate::images::all_released(
            self.images,
            all_of_class(self.groups, class),
        );
        let groups = self.groups.map_values(
            |group: GroupView|
                GroupView { notifications: not_of_class(group.notifications, class), ..group },
        );
        (NotificationView { groups, images }, unused)
    }
}


pub proof fn lemma_id_place(notifications: Seq<EwwNotification>, id: u32, place: int)
    requires
        0 <= place <= notifications.len(),
        forall|i: int| 0 <= i < place ==> (#[trigger] notifications[i]).id != id,
        place < notifications.len() ==> notifications[place].id == id,
    ensures
        id_place(notifications, id) == place,
    decreases notifications.len(),
{
    if place > 0 {
        let rest = notifications.drop_first();
        assert forall|i: int| 0 <= i < place - 1 implies (#[trigger] rest[i]).id != id by {
            assert(rest[i] == notifications[i + 1]);
        }
        lemma_id_place(rest, id, place - 1);
    }
}

pub proof fn lemma_id_found(notifications: Seq<EwwNotification>, id: u32)
    ensures
        0 <= id_place(notifications, id) <= notifications.len(),
        has_id(notifications, id) ==> notifications[id_place(notifications, id)].id == id,
        forall|i: int|
            0 <= i < id_place(notifications, id) ==> (#[trigger] notifications[i]).id != id,
    decreases notifications.len(),
{
    if notifications.len() > 0 && notifications[0].id != id {
        let rest = notifications.drop_first();
        lemma_id_found(rest, id);
        assert forall|i: int| 0 <= i < id_place(notifications, id) implies (
        #[trigger] notifications[i]).id != id by {
            if i > 0 {
                assert(rest[i - 1] == notifications[i]);
            }
        }
    }
}

pub proof fn lemma_group_place(groups: Seq<GroupView>, app_name: Seq<char>, place: int)
    requires
        0 <= place <= groups.len(),
        forall|i: int| 0 <= i < place ==> (#[trigger] groups[i]).app_name != app_name,
        place < groups.len() ==> groups[place].app_name == app_name,
    ensures
        group_place(groups, app_name) == place,
    decreases groups.len(),
{
    if place > 0 {
        let rest = groups.drop_first();
        assert forall|i: int| 0 <= i < place - 1 implies (#[trigger] rest[i]).app_name
            != app_name by {
            assert(rest[i] == groups[i + 1]);
        }
        lemma_group_place(rest, app_name, place - 1);
    }
}

pub proof fn lemma_group_found(groups: Seq<GroupView>, app_name: Seq<char>)
    ensures
        0 <= group_place(groups, app_name) <= groups.len(),
        group_place(groups, app_name) < groups.len() ==> groups[group_place(
            groups,
            app_name,
        )].app_name == app_name,
        forall|i: int|
            0 <= i < group_place(groups, app_name) ==> (#[trigger] groups[i]).app_name != app_name,
    decreases groups.len(),
{
    if groups.len() > 0 && groups[0].app_name != app_name {
        let rest = groups.drop_first();
        lemma_group_found(rest, app_name);
        assert forall|i: int| 0 <= i < group_place(groups, app_name) implies (
        #[trigger] groups[i]).app_name != app_name by {
            if i > 0 {
                assert(rest[i - 1] == groups[i]);
            }
        }
    }
}

pub proof fn lemma_id_group_place(groups: Seq<GroupView>, id: u32, place: int)
    requires
        0 <= place <= groups.len(),
        forall|i: int| 0 <= i < place ==> !has_id((#[trigger] groups[i]).notifications, id),
        place < groups.len() ==> has_id(groups[place].notifications, id),
    ensures
        id_group_place(groups, id) == place,
    decreases groups.len(),
{
    if place > 0 {
        let rest = groups.drop_first();
        assert forall|i: int| 0 <= i < place - 1 implies !has_id(
            (#[trigger] rest[i]).notifications,
            id,
        ) by {
            assert(rest[i] == groups[i + 1]);
        }
        lemma_id_group_place(rest, id, place - 1);
    }
}

pub proof fn lemma_id_group_found(groups: Seq<GroupView>, id: u32)
    ensures
        0 <= id_group_place(groups, id) <= groups.len(),
        id_group_place(groups, id) < groups.len() ==> has_id(
            groups[id_group_place(groups, id)].notifications,
            id,
        ),
        forall|i: int|
            0 <= i < id_group_place(groups, id) ==> !has_id(
                (#[trigger] groups[i]).notifications,
                id,
            ),
    decreases groups.len(),
{
    if groups.len() > 0 && !has_id(groups[0].notifications, id) {
        let rest = groups.drop_first();
        lemma_id_group_found(rest, id);
        assert forall|i: int| 0 <= i < id_group_place(groups, id) implies !has_id(
            (#[trigger] groups[i]).notifications,
            id,
        ) by {
            if i > 0 {
                assert(rest[i - 1] == groups[i]);
            }
        }
    }
}

proof fn lemma_live_update(groups: Seq<GroupView>, i: int, group: GroupView, path: PathKey)
    requires
        0 <= i < groups.len(),
    ensures
        live(groups.update(i, group), path) + crate::images::holders(groups[i].notifications, path)
            == live(groups, path) + crate::images::holders(group.notifications, path),
    decreases groups.len(),
{
    let updated = groups.update(i, group);
    if i == groups.len() - 1 {
        assert(updated.drop_last() =~= groups.drop_last());
    } else {
        assert(updated.drop_last() =~= groups.drop_last().update(i, group));
        lemma_live_update(groups.drop_last(), i, group, path);
    }
}

proof fn lemma_live_push(groups: Seq<GroupView>, group: GroupView, path: PathKey)
    ensures
        live(groups.push(group), path) == live(groups, path) + crate::images::holders(
            group.notifications,
            path,
        ),
{
    assert(groups.push(group).drop_last() =~= groups);
}

pub proof fn lemma_live_at_least(groups: Seq<GroupView>, i: int, path: PathKey)
    requires
        0 <= i < groups.len(),
    ensures
        crate::images::holders(groups[i].notifications, path) <= live(groups, path),
    decreases groups.len(),
{
    if i < groups.len() - 1 {
        lemma_live_at_least(groups.drop_last(), i, path);
    }
}

/// What goes for a new notification, and what it adds.
proof fn lemma_with_newest(
    notifications: Seq<EwwNotification>,
    newest: EwwNotification,
    path: PathKey,
)
    requires
        notifications.len() <= NOTIFICATION_LIMIT,
        ids_differ(notifications),
    ensures
        with_newest(notifications, newest).len() <= NOTIFICATION_LIMIT,
        ids_differ(with_newest(notifications, newest)),
        all_named(notifications, newest.app_name@) ==> all_named(
            with_newest(notifications, newest),
            newest.app_name@,
        ),
        with_newest(notifications, newest)[0] == newest,
        ({
            let place = id_place(notifications, newest.id);
            let replaced = if has_id(notifications, newest.id) {
                crate::images::holds(notifications[place], path)
            } else {
                0
            };
            let after = crate::images::holders(with_newest(notifications, newest), path) + replaced;
            let before = crate::images::holders(notifications, path) + crate::images::holds(
                newest,
                path,
            );
            &&& after <= before
            &&& has_id(notifications, newest.id) || notifications.len() < NOTIFICATION_LIMIT
                ==> after == before
        }),
{
    let id = newest.id;
    lemma_id_found(notifications, id);
    let place = id_place(notifications, id);
    let rest = without_id(notifications, id);
    let all = seq![newest] + rest;
    crate::images::lemma_holders_add(seq![newest], rest, path);
    crate::images::lemma_holders_one(newest, path);
    if has_id(notifications, id) {
        crate::images::lemma_holders_remove(notifications, place, path);
        assert forall|i: int| 0 <= i < rest.len() implies (#[trigger] rest[i]).id != id by {
            let j = if i < place { i } else { i + 1 };
            assert(rest[i] == notifications[j]);
            assert(notifications[place].id == id);
        }
        assert forall|i: int, j: int| 0 <= i < j < rest.len() implies (#[trigger] rest[i]).id != (
        #[trigger] rest[j]).id by {
            let k = if i < place { i } else { i + 1 };
            let l = if j < place { j } else { j + 1 };
            assert(rest[i] == notifications[k] && rest[j] == notifications[l]);
        }
    } else {
        assert(rest == notifications);
    }
    assert forall|i: int, j: int| 0 <= i < j < all.len() implies (#[trigger] all[i]).id != (
    #[trigger] all[j]).id by {
        assert(all[j] == rest[j - 1]);
        if i > 0 {
            assert(all[i] == rest[i - 1]);
        }
    }
    if all.len() > NOTIFICATION_LIMIT {
        assert(crate::images::holders(all.drop_last(), path) <= crate::images::holders(all, path));
    }
}

/// A new notification keeps what is kept in good order; where it takes the place of another, or
/// its application has room for one more, it also keeps the counts of the images exact.
pub proof fn law_insert_keeps_order(data: NotificationView, newest: EwwNotification, now: u128)
    requires
        data.wf(),
    ensures
        data.inserted(newest, now).0.wf(),
        data.exact() && (has_id(
            group_of(data.groups, newest.app_name@).notifications,
            newest.id,
        ) || group_of(data.groups, newest.app_name@).notifications.len() < NOTIFICATION_LIMIT)
            ==> data.inserted(newest, now).0.exact(),
{
    let name = newest.app_name@;
    let place = group_place(data.groups, name);
    lemma_group_found(data.groups, name);
    let group = group_of(data.groups, name);
    let after = data.inserted(newest, now).0;
    let next = GroupView {
        app_name: group.app_name,
        notifications: with_newest(group.notifications, newest),
        timestamp: now,
    };
    assert(group.app_name == name);
    lemma_with_newest(group.notifications, newest, crate::path::path_key(Seq::empty()));
    lemma_id_found(group.notifications, newest.id);
    let counted = crate::images::acquired(data.images, newest);
    let old_place = id_place(group.notifications, newest.id);
    let has = has_id(group.notifications, newest.id);
    assert(crate::images::all_used(data.images));
    crate::images::law_acquire_counts_one(data.images, newest, crate::path::path_key(Seq::empty()));
    if has {
        crate::images::law_release_counts_one(
            counted,
            group.notifications[old_place],
            crate::path::path_key(Seq::empty()),
        );
    }
    assert(crate::images::all_used(after.images));
    assert forall|path: PathKey| true implies {
        &&& #[trigger] live(after.groups, path) <= crate::images::uses_of(after.images, path)
        &&& data.exact() && (has || group.notifications.len() < NOTIFICATION_LIMIT) ==> live(
            after.groups,
            path,
        ) == crate::images::uses_of(after.images, path)
    } by {
        lemma_with_newest(group.notifications, newest, path);
        crate::images::law_acquire_counts_one(data.images, newest, path);
        assert(live(data.groups, path) <= crate::images::uses_of(data.images, path));
        if place < data.groups.len() {
            lemma_live_update(data.groups, place, next, path);
            lemma_live_at_least(data.groups, place, path);
        } else {
            lemma_live_push(data.groups, next, path);
            assert(crate::images::holders(group.notifications, path) == 0);
        }
        if has {
            crate::images::lemma_holders_remove(group.notifications, old_place, path);
            crate::images::law_release_counts_one(counted, group.notifications[old_place], path);
        }
    }
    assert forall|i: int, j: int| 0 <= i < j < after.groups.len() implies (
    #[trigger] after.groups[i]).app_name != (#[trigger] after.groups[j]).app_name by {
        if place < data.groups.len() {
            assert(data.groups[i].app_name == after.groups[i].app_name);
            assert(data.groups[j].app_name == after.groups[j].app_name);
        } else if j < data.groups.len() {
            assert(data.groups[i].app_name != data.groups[j].app_name);
        }
    }
}

/// Removing a notification keeps what is kept in good order, and the counts of the images exact.
pub proof fn law_remove_keeps_order(data: NotificationView, id: u32)
    requires
        data.wf(),
    ensures
        data.without(id).0.wf(),
        data.exact() ==> data.without(id).0.exact(),
{
    let place = id_group_place(data.groups, id);
    lemma_id_group_found(data.groups, id);
    if place < data.groups.len() {
        let group = data.groups[place];
        let after = data.without(id).0;
        let old_place = id_place(group.notifications, id);
        lemma_id_found(group.notifications, id);
        let rest = without_id(group.notifications, id);
        let next = GroupView { notifications: rest, ..group };
        assert(crate::images::all_used(data.images));
        crate::images::law_release_counts_one(
            data.images,
            group.notifications[old_place],
            crate::path::path_key(Seq::empty()),
        );
        assert forall|path: PathKey| true implies {
            &&& #[trigger] live(after.groups, path) <= crate::images::uses_of(after.images, path)
            &&& data.exact() ==> live(after.groups, path) == crate::images::uses_of(
                after.images,
                path,
            )
        } by {
            assert(live(data.groups, path) <= crate::images::uses_of(data.images, path));
            lemma_live_update(data.groups, place, next, path);
            lemma_live_at_least(data.groups, place, path);
            crate::images::lemma_holders_remove(group.notifications, old_place, path);
            crate::images::law_release_counts_one(
                data.images,
                group.notifications[old_place],
                path,
            );
        }
        assert forall|i: int, j: int| 0 <= i < j < rest.len() implies (#[trigger] rest[i]).id != (
        #[trigger] rest[j]).id by {
            let k = if i < old_place { i } else { i + 1 };
            let l = if j < old_place { j } else { j + 1 };
            assert(rest[i] == group.notifications[k] && rest[j] == group.notifications[l]);
        }
        assert forall|i: int, j: int| 0 <= i < j < after.groups.len() implies (
        #[trigger] after.groups[i]).app_name != (#[trigger] after.groups[j]).app_name by {
            assert(data.groups[i].app_name == after.groups[i].app_name);
            assert(data.groups[j].app_name == after.groups[j].app_name);
        }
    }
}

/// A filter keeps differing ids different, and splits the uses of an image.
proof fn lemma_split_by_class(
    notifications: Seq<EwwNotification>,
    class: Seq<char>,
    path: PathKey,
)
    ensures
        crate::images::holders(notifications, path) == crate::images::holders(
            of_class(notifications, class),
            path,
        ) + crate::images::holders(not_of_class(notifications, class), path),
        not_of_class(notifications, class).len() <= notifications.len(),
        ids_differ(notifications) ==> ids_differ(not_of_class(notifications, class)),
        forall|i: int|
            0 <= i < not_of_class(notifications, class).len() ==> exists|j: int|
                0 <= j < notifications.len() && notifications[j] == (#[trigger] not_of_class(
                    notifications,
                    class,
                )[i]),
    decreases notifications.len(),
{
    reveal(Seq::filter);
    if notifications.len() > 0 {
        let first = notifications.drop_last();
        let last = notifications.last();
        lemma_split_by_class(first, class, path);
        let kept = not_of_class(first, class);
        let all_kept = not_of_class(notifications, class);
        if last.app_class@ == class {
            assert(of_class(notifications, class) =~= of_class(first, class).push(last));
            assert(of_class(notifications, class).drop_last() =~= of_class(first, class));
            assert(all_kept =~= kept);
        } else {
            assert(all_kept =~= kept.push(last));
            assert(all_kept.drop_last() =~= kept);
            assert(of_class(notifications, class) =~= of_class(first, class));
        }
        assert forall|i: int| 0 <= i < all_kept.len() implies exists|j: int|
            0 <= j < notifications.len() && notifications[j] == (#[trigger] all_kept[i]) by {
            if i < kept.len() {
                assert(all_kept[i] == kept[i]);
                let j = choose|j: int| 0 <= j < first.len() && first[j] == kept[i];
                assert(notifications[j] == all_kept[i]);
            } else {
                assert(notifications[notifications.len() - 1] == all_kept[i]);
            }
        }
        if ids_differ(notifications) {
            assert forall|i: int, j: int| 0 <= i < j < first.len() implies (
            #[trigger] first[i]).id != (#[trigger] first[j]).id by {
                assert(first[i] == notifications[i] && first[j] == notifications[j]);
            }
            assert(ids_differ(first));
            assert forall|i: int, j: int| 0 <= i < j < all_kept.len() implies (
            #[trigger] all_kept[i]).id != (#[trigger] all_kept[j]).id by {
                assert(all_kept[i] == kept[i]);
                if j < kept.len() {
                    assert(all_kept[j] == kept[j]);
                } else {
                    let k = choose|k: int| 0 <= k < first.len() && first[k] == kept[i];
                    assert(notifications[k] == first[k]);
                    assert(all_kept[j] == notifications[notifications.len() - 1]);
                }
            }
        }
    }
}

pub proof fn lemma_live_by_class(groups: Seq<GroupView>, class: Seq<char>, path: PathKey)
    ensures
        live(groups, path) == crate::images::holders(all_of_class(groups, class), path) + live(
            groups.map_values(
                |group: GroupView|
                    GroupView { notifications: not_of_class(group.notifications, class), ..group },
            ),
            path,
        ),
    decreases groups.len(),
{
    let clear = |group: GroupView|
        GroupView { notifications: not_of_class(group.notifications, class), ..group };
    if groups.len() > 0 {
        lemma_live_by_class(groups.drop_last(), class, path);
        assert(groups.map_values(clear).drop_last() =~= groups.drop_last().map_values(clear));
        crate::images::lemma_holders_add(
            all_of_class(groups.drop_last(), class),
            of_class(groups.last().notifications, class),
            path,
        );
        lemma_split_by_class(groups.last().notifications, class, path);
    }
}

/// Clearing a class keeps what is kept in good order, and the counts of the images exact.
pub proof fn law_clear_keeps_order(data: NotificationView, class: Seq<char>)
    requires
        data.wf(),
    ensures
        data.cleared(class).0.wf(),
        data.exact() ==> data.cleared(class).0.exact(),
{
    let gone = all_of_class(data.groups, class);
    let after = data.cleared(class).0;
    assert forall|path: PathKey| #[trigger] crate::images::holders(gone, path)
        <= crate::images::uses_of(data.images, path) by {
        lemma_live_by_class(data.groups, class, path);
        assert(live(data.groups, path) <= crate::images::uses_of(data.images, path));
    }
    assert(crate::images::all_used(data.images));
    crate::images::law_release_counts_all(data.images, gone);
    assert forall|path: PathKey| true implies {
        &&& #[trigger] live(after.groups, path) <= crate::images::uses_of(after.images, path)
        &&& data.exact() ==> live(after.groups, path) == crate::images::uses_of(after.images, path)
    } by {
        lemma_live_by_class(data.groups, class, path);
        assert(live(data.groups, path) <= crate::images::uses_of(data.images, path));
    }
    assert forall|i: int| 0 <= i < after.groups.len() implies (
    #[trigger] after.groups[i]).notifications.len() <= NOTIFICATION_LIMIT && ids_differ(
        after.groups[i].notifications,
    ) && all_named(after.groups[i].notifications, after.groups[i].app_name) by {
        let notifications = data.groups[i].notifications;
        lemma_split_by_class(notifications, class, crate::path::path_key(Seq::empty()));
        assert(after.groups[i].notifications == not_of_class(notifications, class));
    }
    assert forall|i: int, j: int| 0 <= i < j < after.groups.len() implies (
    #[trigger] after.groups[i]).app_name != (#[trigger] after.groups[j]).app_name by {
        assert(data.groups[i].app_name == after.groups[i].app_name);
        assert(data.groups[j].app_name == after.groups[j].app_name);
    }
}

/// A file that is given up is used by none of the notifications that are kept.
pub proof fn law_insert_gives_up_unused(data: NotificationView, newest: EwwNotification, now: u128)
    requires
        data.wf(),
    ensures
        data.inserted(newest, now).1 matches Some(path) ==> live(
            data.inserted(newest, now).0.groups,
            path,
        ) == 0,
{
    law_insert_keeps_order(data, newest, now);
    if let Some(path) = data.inserted(newest, now).1 {
        let after = data.inserted(newest, now).0;
        assert(live(after.groups, path) <= crate::images::uses_of(after.images, path));
    }
}

/// A file that is given up is used by none of the notifications that are kept.
pub proof fn law_remove_gives_up_unused(data: NotificationView, id: u32)
    requires
        data.wf(),
    ensures
        data.without(id).1 matches Some(path) ==> live(data.without(id).0.groups, path) == 0,
{
    law_remove_keeps_order(data, id);
    if let Some(path) = data.without(id).1 {
        let after = data.without(id).0;
        assert(live(after.groups, path) <= crate::images::uses_of(after.images, path));
    }
}

/// Files that are given up are used by none of the notifications that are kept, and no file is
/// given up twice.
pub proof fn law_clear_gives_up_unused(data: NotificationView, class: Seq<char>)
    requires
        data.wf(),
    ensures
        forall|path: PathKey| #[trigger]
            data.cleared(class).1.contains(path) ==> live(data.cleared(class).0.groups, path) == 0,
        data.cleared(class).1.no_duplicates(),
{
    let gone = all_of_class(data.groups, class);
    let after = data.cleared(class).0;
    assert forall|path: PathKey| #[trigger] crate::images::holders(gone, path)
        <= crate::images::uses_of(data.images, path) by {
        lemma_live_by_class(data.groups, class, path);
        assert(live(data.groups, path) <= crate::images::uses_of(data.images, path));
    }
    assert(crate::images::all_used(data.images));
    crate::images::law_release_counts_all(data.images, gone);
    law_clear_keeps_order(data, class);
    assert forall|path: PathKey| #[trigger] data.cleared(class).1.contains(path) implies live(
        after.groups,
        path,
    ) == 0 by {
        assert(live(after.groups, path) <= crate::images::uses_of(after.images, path));
        assert(crate::images::uses_of(
            crate::images::all_released(data.images, gone).0,
            path,
        ) == crate::images::uses_of(data.images, path) - crate::images::holders(gone, path));
    }
}

/// Once a class is cleared, what is left in each group are its notifications of other classes.
pub proof fn law_clear_leaves_the_others(data: NotificationView, class: Seq<char>, i: int)
    requires
        0 <= i < data.groups.len(),
    ensures
        forall|notification: EwwNotification| #[trigger]
            data.cleared(class).0.groups[i].notifications.contains(notification) <==> (
            data.groups[i].notifications.contains(notification) && notification.app_class@
                != class),
{
    broadcast use vstd::seq_lib::group_filter_ensures;

    let before = data.groups[i].notifications;
    let after = data.cleared(class).0.groups[i].notifications;
    assert(after == not_of_class(before, class));
    assert forall|notification: EwwNotification| #[trigger] after.contains(notification) <==> (
    before.contains(notification) && notification.app_class@ != class) by {
        if after.contains(notification) {
            lemma_split_by_class(before, class, crate::path::path_key(Seq::empty()));
            let j = choose|j: int| 0 <= j < after.len() && after[j] == notification;
            let k = choose|k: int| 0 <= k < before.len() && before[k] == after[j];
            assert(before[k] == notification);
        }
    }
}

proof fn lemma_holders_reverse(notifications: Seq<EwwNotification>, path: PathKey)
    ensures
        crate::images::holders(notifications.reverse(), path) == crate::images::holders(
            notifications,
            path,
        ),
    decreases notifications.len(),
{
    if notifications.len() > 0 {
        let first = notifications.drop_last();
        assert(notifications.reverse() =~= seq![notifications.last()] + first.reverse());
        crate::images::lemma_holders_add(seq![notifications.last()], first.reverse(), path);
        crate::images::lemma_holders_one(notifications.last(), path);
        lemma_holders_reverse(first, path);
    }
}

pub proof fn lemma_live_from_oldest(groups: Seq<GroupView>, path: PathKey)
    ensures
        crate::images::holders(all_from_oldest(groups), path) == live(groups, path),
    decreases groups.len(),
{
    if groups.len() > 0 {
        lemma_live_from_oldest(groups.drop_last(), path);
        crate::images::lemma_holders_add(
            all_from_oldest(groups.drop_last()),
            groups.last().notifications.reverse(),
            path,
        );
        lemma_holders_reverse(groups.last().notifications, path);
    }
}

/// At the end each file that is counted just as often as it is used is given up, and given up once.
/// If all are counted so, none stays behind.
pub proof fn law_cleanup_gives_up_all(data: NotificationView)
    requires
        data.wf(),
    ensures
        ({
            let (left, files) = crate::images::all_released(
                data.images,
                all_from_oldest(data.groups),
            );
            &&& files.no_duplicates()
            &&& forall|path: PathKey| #[trigger]
                files.contains(path) <==> 0 < live(data.groups, path) == crate::images::uses_of(
                    data.images,
                    path,
                )
            &&& data.exact() ==> left == Map::<PathKey, nat>::empty()
            &&& data.exact() ==> forall|path: PathKey| #[trigger]
                files.contains(path) <==> data.images.contains_key(path)
        }),
{
    let gone = all_from_oldest(data.groups);
    assert forall|path: PathKey| #[trigger] crate::images::holders(gone, path)
        <= crate::images::uses_of(data.images, path) by {
        lemma_live_from_oldest(data.groups, path);
        assert(live(data.groups, path) <= crate::images::uses_of(data.images, path));
    }
    assert(crate::images::all_used(data.images));
    crate::images::law_release_counts_all(data.images, gone);
    let (left, files) = crate::images::all_released(data.images, gone);
    assert forall|path: PathKey| #[trigger] files.contains(path) <==> 0 < live(data.groups, path)
        == crate::images::uses_of(data.images, path) by {
        lemma_live_from_oldest(data.groups, path);
    }
    if data.exact() {
        assert forall|path: PathKey| !left.contains_key(path) by {
            lemma_live_from_oldest(data.groups, path);
            assert(crate::images::uses_of(left, path) == crate::images::uses_of(data.images, path)
                - crate::images::holders(gone, path));
            assert(live(data.groups, path) == crate::images::uses_of(data.images, path));
        }
        assert(left =~= Map::<PathKey, nat>::empty());
        assert forall|path: PathKey| #[trigger]
            files.contains(path) <==> data.images.contains_key(path) by {
            assert(live(data.groups, path) == crate::images::uses_of(data.images, path));
        }
    }
}

/// A new notification is the first of its application, with no other of its id there, and the
/// groups of other applications stay as they are.
pub proof fn law_newest_comes_first(
    data: NotificationView,
    newest: EwwNotification,
    now: u128,
    other: Seq<char>,
)
    requires
        data.wf(),
    ensures
        ({
            let groups = data.inserted(newest, now).0.groups;
            let group = group_of(groups, newest.app_name@);
            &&& group.notifications[0] == newest
            &&& group.timestamp == now
            &&& forall|i: int|
                0 < i < group.notifications.len() ==> (#[trigger] group.notifications[i]).id
                    != newest.id
            &&& other != newest.app_name@ ==> group_of(groups, other) == group_of(
                data.groups,
                other,
            )
        }),
{
    let name = newest.app_name@;
    let place = group_place(data.groups, name);
    let before = group_of(data.groups, name);
    let groups = data.inserted(newest, now).0.groups;
    lemma_group_found(data.groups, name);
    lemma_group_found(data.groups, other);
    lemma_group_place(groups, name, place);
    lemma_with_newest(before.notifications, newest, crate::path::path_key(Seq::empty()));
    assert(ids_differ(group_of(groups, name).notifications));
    if other != name {
        let other_place = group_place(data.groups, other);
        if other_place < data.groups.len() {
            assert(groups[other_place] == data.groups[other_place]);
            lemma_group_place(groups, other, other_place);
        } else {
            lemma_group_place(groups, other, groups.len() as int);
        }
    }
}

/// Removing an id takes one notification out of one group, where none has that id any more, and
/// leaves the other groups as they are.
pub proof fn law_removed_id_is_gone(data: NotificationView, id: u32)
    requires
        data.wf(),
    ensures
        ({
            let place = id_group_place(data.groups, id);
            let after = data.without(id).0.groups;
            &&& after.len() == data.groups.len()
            &&& forall|i: int|
                0 <= i < after.len() && i != place ==> #[trigger] after[i] == data.groups[i]
            &&& place < after.len() ==> {
                &&& after[place].notifications.len() + 1 == data.groups[place].notifications.len()
                &&& !has_id(after[place].notifications, id)
            }
            &&& place == after.len() ==> forall|i: int|
                0 <= i < after.len() ==> !has_id((#[trigger] after[i]).notifications, id)
        }),
{
    let place = id_group_place(data.groups, id);
    lemma_id_group_found(data.groups, id);
    if place < data.groups.len() {
        let notifications = data.groups[place].notifications;
        lemma_id_found(notifications, id);
        let at = id_place(notifications, id);
        let after = notifications.remove(at);
        assert forall|j: int| 0 <= j < after.len() implies (#[trigger] after[j]).id != id by {
            let k = if j < at { j } else { j + 1 };
            assert(after[j] == notifications[k]);
            if k < at {
                assert(notifications[k].id != notifications[at].id);
            } else {
                assert(notifications[at].id != notifications[k].id);
            }
        }
        lemma_id_place(after, id, after.len() as int);
    }
}

/// Removing a notification that just came, with an id that no other had, takes back what it did to
/// the counts of the images, and to its group if that had room for it.
pub proof fn law_remove_undoes_insert(data: NotificationView, newest: EwwNotification, now: u128)
    requires
        data.wf(),
        forall|i: int|
            0 <= i < data.groups.len() ==> !has_id(
                (#[trigger] data.groups[i]).notifications,
                newest.id,
            ),
    ensures
        ({
            let after = data.inserted(newest, now).0.without(newest.id).0;
            let name = newest.app_name@;
            &&& after.images == data.images
            &&& group_of(data.groups, name).notifications.len() < NOTIFICATION_LIMIT ==> group_of(
                after.groups,
                name,
            ).notifications == group_of(data.groups, name).notifications
        }),
{
    let id = newest.id;
    let name = newest.app_name@;
    let place = group_place(data.groups, name);
    let before = group_of(data.groups, name);
    let middle = data.inserted(newest, now).0;
    let after = middle.without(id).0;
    lemma_group_found(data.groups, name);
    assert(!has_id(before.notifications, id));
    lemma_with_newest(before.notifications, newest, crate::path::path_key(Seq::empty()));
    let queue = with_newest(before.notifications, newest);
    lemma_id_place(queue, id, 0);
    assert forall|i: int| 0 <= i < place implies !has_id(
        (#[trigger] middle.groups[i]).notifications,
        id,
    ) by {
        assert(middle.groups[i] == data.groups[i]);
    }
    assert(middle.groups[place].notifications == queue);
    lemma_id_group_place(middle.groups, id, place);
    crate::images::law_release_undoes_acquire(data.images, newest);
    assert(after.groups[place].app_name == name);
    assert forall|i: int| 0 <= i < place implies (#[trigger] after.groups[i]).app_name != name by {
        assert(after.groups[i] == data.groups[i]);
    }
    lemma_group_place(after.groups, name, place);
    if before.notifications.len() < NOTIFICATION_LIMIT {
        assert(queue.remove(0) =~= before.notifications);
    }
}

} // verus!

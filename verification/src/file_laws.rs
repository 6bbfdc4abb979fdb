//! The order in which image files are given up.
use crate::notification::EwwNotification;
use crate::notification_model::{GroupView, NotificationView};
use crate::path::PathKey;
use vstd::prelude::*;

verus! {

/// At a place stands the last of some notifications that uses a file.
pub open spec fn is_last_user(
    notifications: Seq<EwwNotification>,
    place: int,
    file: PathKey,
) -> bool {
    &&& 0 <= place < notifications.len()
    &&& crate::notification_laws::uses_file(notifications[place], file)
    &&& forall|later: int|
        place < later < notifications.len() ==> !crate::notification_laws::uses_file(
            #[trigger] notifications[later],
            file,
        )
}

/// Some notification is the last that uses a file.
pub open spec fn has_last_user(notifications: Seq<EwwNotification>, file: PathKey) -> bool {
    exists|place: int| is_last_user(notifications, place, file)
}

/// The files come in the order of the last of the notifications that use each of them.
pub open spec fn by_last_user(files: Seq<PathKey>, notifications: Seq<EwwNotification>) -> bool {
    &&& forall|i: int|
        0 <= i < files.len() ==> has_last_user(notifications, #[trigger] files[i])
    &&& forall|i: int, j: int, p: int, q: int|
        0 <= i < j < files.len() && #[trigger] is_last_user(notifications, p, files[i])
            && #[trigger] is_last_user(notifications, q, files[j]) ==> p < q
}

/// The notifications of all groups, group after group, from the last of each group to the first.
pub open spec fn from_the_last(groups: Seq<GroupView>) -> Seq<EwwNotification> {
    groups.map_values(|group: GroupView| group.notifications.reverse()).flatten()
}

/// The notifications of a class.
pub open spec fn of_one_class(
    notifications: Seq<EwwNotification>,
    class: Seq<char>,
) -> Seq<EwwNotification> {
    notifications.filter(|notification: EwwNotification| notification.app_class@ == class)
}

/// The notifications of a class, group after group, from the first of each group to the last.
pub open spec fn from_the_first(groups: Seq<GroupView>, class: Seq<char>) -> Seq<EwwNotification> {
    Seq::new(groups.len(), |i: int| of_one_class(groups[i].notifications, class)).flatten()
}

proof fn lemma_from_the_last(groups: Seq<GroupView>)
    ensures
        crate::notification_model::all_from_oldest(groups) == from_the_last(groups),
    decreases groups.len(),
{
    let lists = groups.map_values(|group: GroupView| group.notifications.reverse());
    if groups.len() > 0 {
        let before = groups.drop_last().map_values(
            |group: GroupView| group.notifications.reverse(),
        );
        lemma_from_the_last(groups.drop_last());
        assert(lists =~= before.push(groups.last().notifications.reverse()));
        before.lemma_flatten_push(groups.last().notifications.reverse());
    } else {
        assert(lists.flatten() =~= Seq::empty());
    }
}

proof fn lemma_one_class(notifications: Seq<EwwNotification>, class: Seq<char>)
    ensures
        crate::notification_model::of_class(notifications, class) == of_one_class(
            notifications,
            class,
        ),
    decreases notifications.len(),
{
    reveal(Seq::filter);
    if notifications.len() > 0 {
        lemma_one_class(notifications.drop_last(), class);
    }
}

proof fn lemma_from_the_first(groups: Seq<GroupView>, class: Seq<char>)
    ensures
        crate::notification_model::all_of_class(groups, class) == from_the_first(groups, class),
    decreases groups.len(),
{
    let lists = Seq::new(groups.len(), |i: int| of_one_class(groups[i].notifications, class));
    if groups.len() > 0 {
        let first = groups.drop_last();
        let before = Seq::new(first.len(), |i: int| of_one_class(first[i].notifications, class));
        let last = of_one_class(groups.last().notifications, class);
        lemma_from_the_first(first, class);
        lemma_one_class(groups.last().notifications, class);
        assert(lists =~= before.push(last));
        before.lemma_flatten_push(last);
    } else {
        assert(lists.flatten() =~= Seq::empty());
    }
}

proof fn lemma_last_user(notifications: Seq<EwwNotification>, file: PathKey) -> (place: int)
    requires
        crate::images::holders(notifications, file) > 0,
    ensures
        is_last_user(notifications, place, file),
    decreases notifications.len(),
{
    let first = notifications.drop_last();
    if crate::notification_laws::uses_file(notifications.last(), file) {
        notifications.len() - 1
    } else {
        let place = lemma_last_user(first, file);
        assert forall|later: int| place < later < notifications.len() implies
            !crate::notification_laws::uses_file(#[trigger] notifications[later], file) by {
            if later < first.len() {
                assert(first[later] == notifications[later]);
            }
        }
        place
    }
}

/// Where some notifications go one after the other, and all their uses were counted, the files that
/// are given up come in the order of their last users.
pub proof fn law_given_up_by_last_user(counts: Map<PathKey, nat>, gone: Seq<EwwNotification>)
    requires
        forall|file: PathKey| #[trigger] counts.contains_key(file) ==> counts[file] > 0,
        forall|file: PathKey| #[trigger]
            crate::images::holders(gone, file) <= crate::images::uses_of(counts, file),
    ensures
        by_last_user(crate::images::all_released(counts, gone).1, gone),
    decreases gone.len(),
{
    if gone.len() > 0 {
        let first = gone.drop_last();
        let last = gone.last();
        assert forall|file: PathKey| #[trigger]
            crate::images::holders(first, file) <= crate::images::uses_of(counts, file) by {
            assert(crate::images::holders(gone, file) <= crate::images::uses_of(counts, file));
        }
        law_given_up_by_last_user(counts, first);
        crate::images::law_release_counts_all(counts, first);
        crate::images::law_release_counts_all(counts, gone);
        let earlier = crate::images::all_released(counts, first).1;
        let files = crate::images::all_released(counts, gone).1;
        assert forall|i: int| 0 <= i < files.len() implies has_last_user(
            gone,
            #[trigger] files[i],
        ) by {
            assert(files.contains(files[i]));
            let place = lemma_last_user(gone, files[i]);
            assert(is_last_user(gone, place, files[i]));
        }
        assert forall|i: int, j: int, p: int, q: int|
            0 <= i < j < files.len() && #[trigger] is_last_user(gone, p, files[i])
                && #[trigger] is_last_user(gone, q, files[j]) implies p < q by {
            assert(earlier[i] == files[i]);
            lemma_stays_last(counts, gone, i, p);
            if j < earlier.len() {
                assert(earlier[j] == files[j]);
                lemma_stays_last(counts, gone, j, q);
            } else {
                assert(crate::images::held_image(last) == Some(files[j]));
                assert(crate::notification_laws::uses_file(gone[gone.len() - 1], files[j]));
                assert(q == gone.len() - 1);
            }
        }
    }
}

/// A file that was given up before the last notification went is not used by that one.
proof fn lemma_stays_last(
    counts: Map<PathKey, nat>,
    gone: Seq<EwwNotification>,
    i: int,
    place: int,
)
    requires
        gone.len() > 0,
        forall|file: PathKey| #[trigger] counts.contains_key(file) ==> counts[file] > 0,
        forall|file: PathKey| #[trigger]
            crate::images::holders(gone, file) <= crate::images::uses_of(counts, file),
        0 <= i < crate::images::all_released(counts, gone.drop_last()).1.len(),
        is_last_user(gone, place, crate::images::all_released(counts, gone.drop_last()).1[i]),
    ensures
        place < gone.len() - 1,
        is_last_user(
            gone.drop_last(),
            place,
            crate::images::all_released(counts, gone.drop_last()).1[i],
        ),
{
    let first = gone.drop_last();
    let file = crate::images::all_released(counts, first).1[i];
    assert forall|other: PathKey| #[trigger]
        crate::images::holders(first, other) <= crate::images::uses_of(counts, other) by {
        assert(crate::images::holders(gone, other) <= crate::images::uses_of(counts, other));
    }
    crate::images::law_release_counts_all(counts, first);
    assert(crate::images::all_released(counts, first).1.contains(file));
    assert(crate::images::holders(gone, file) <= crate::images::uses_of(counts, file));
    assert(!crate::notification_laws::uses_file(gone.last(), file));
    assert forall|later: int| place < later < first.len() implies
        !crate::notification_laws::uses_file(#[trigger] first[later], file) by {
        assert(first[later] == gone[later]);
    }
}

/// When a class is cleared, the files come in the order of the last notification that used each,
/// and when all is cleaned up too, where the notifications of each group go from the last to the
/// first.
pub proof fn law_files_in_order(data: NotificationView, class: Seq<char>)
    requires
        data.wf(),
    ensures
        by_last_user(data.cleared(class).1, from_the_first(data.groups, class)),
        by_last_user(
            crate::images::all_released(
                data.images,
                crate::notification_model::all_from_oldest(data.groups),
            ).1,
            from_the_last(data.groups),
        ),
{
    let some = crate::notification_model::all_of_class(data.groups, class);
    let all = crate::notification_model::all_from_oldest(data.groups);
    assert forall|file: PathKey| #[trigger]
        crate::images::holders(some, file) <= crate::images::uses_of(data.images, file) by {
        crate::notification_model::lemma_live_by_class(data.groups, class, file);
        assert(crate::notification_model::live(data.groups, file) <= crate::images::uses_of(
            data.images,
            file,
        ));
    }
    assert forall|file: PathKey| #[trigger]
        crate::images::holders(all, file) <= crate::images::uses_of(data.images, file) by {
        crate::notification_model::lemma_live_from_oldest(data.groups, file);
        assert(crate::notification_model::live(data.groups, file) <= crate::images::uses_of(
            data.images,
            file,
        ));
    }
    law_given_up_by_last_user(data.images, some);
    law_given_up_by_last_user(data.images, all);
    lemma_from_the_first(data.groups, class);
    lemma_from_the_last(data.groups);
}

} // verus!

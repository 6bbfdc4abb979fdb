//! The notifications that are kept, by application.
use crate::group_order::shown_groups;
use crate::images::ImageUses;
use crate::notification::{EwwNotification, NOTIFICATION_LIMIT};
use crate::notification_model::{GroupView, NotificationView};
use crate::text::to_lowercase;
use crate::path::PathKey;
use std::collections::VecDeque;
use std::path::PathBuf;
use vstd::prelude::*;

verus! {

/// The notifications of one application, the newest first, and when the last one came, in
/// nanoseconds.
#[derive(Debug)]
pub struct Group {
    pub app_name: String,
    pub notifications: VecDeque<EwwNotification>,
    pub timestamp: u128,
}

impl View for Group {
    type V = GroupView;

    open spec fn view(&self) -> GroupView {
        GroupView {
            app_name: self.app_name@,
            notifications: self.notifications@,
            timestamp: self.timestamp,
        }
    }
}

/// All notifications that are kept, and how their images are used.
#[derive(Debug)]
pub struct NotificationData {
    groups: Vec<Group>,
    images: ImageUses,
}

impl View for NotificationData {
    type V = NotificationView;

    closed spec fn view(&self) -> NotificationView {
        NotificationView {
            groups: self.groups@.map_values(|group: Group| group@),
            images: self.images@,
        }
    }
}

/// The place of the first notification with an id.
fn find_id(notifications: &VecDeque<EwwNotification>, id: u32) -> (place: Option<usize>)
    ensures
        match place {
            Some(i) => crate::notification_model::has_id(notifications@, id)
                && crate::notification_model::id_place(notifications@, id) == i,
            None => !crate::notification_model::has_id(notifications@, id),
        },
{
    let mut i: usize = 0;
    while i < notifications.len()
        invariant
            i <= notifications@.len(),
            forall|j: int| 0 <= j < i ==> (#[trigger] notifications@[j]).id != id,
        decreases notifications@.len() - i,
    {
        if notifications[i].id == id {
            proof {
                crate::notification_model::lemma_id_place(notifications@, id, i as int);
            }
            return Some(i);
        }
        i += 1;
    }
    proof {
        crate::notification_model::lemma_id_place(notifications@, id, i as int);
    }
    None
}

/// Takes out the first notification with an id.
fn take_id(notifications: &mut VecDeque<EwwNotification>, id: u32) -> (taken: Option<
    EwwNotification,
>)
    ensures
        final(notifications)@ == crate::notification_model::without_id(old(notifications)@, id),
        match taken {
            Some(notification) => crate::notification_model::has_id(old(notifications)@, id)
                && notification == old(notifications)@[crate::notification_model::id_place(
                old(notifications)@,
                id,
            )],
            None => !crate::notification_model::has_id(old(notifications)@, id)
                && *final(notifications) == *old(notifications),
        },
{
    match find_id(notifications, id) {
        Some(i) => notifications.remove(i),
        None => None,
    }
}

/// Puts a notification in front, in the place of the one with its id, and drops the last one if
/// there are too many.
fn put_newest(notifications: &mut VecDeque<EwwNotification>, newest: EwwNotification) -> (replaced:
    Option<EwwNotification>)
    requires
        old(notifications)@.len() <= NOTIFICATION_LIMIT,
    ensures
        final(notifications)@ == crate::notification_model::with_newest(
            old(notifications)@,
            newest,
        ),
        match replaced {
            Some(notification) => crate::notification_model::has_id(old(notifications)@, newest.id)
                && notification == old(notifications)@[crate::notification_model::id_place(
                old(notifications)@,
                newest.id,
            )],
            None => !crate::notification_model::has_id(old(notifications)@, newest.id),
        },
{
    let replaced = take_id(notifications, newest.id);
    notifications.push_front(newest);
    if notifications.len() > NOTIFICATION_LIMIT {
        notifications.pop_back();
    }
    replaced
}

/// Takes out the notifications of a class.
fn take_class(notifications: &mut VecDeque<EwwNotification>, class: &String) -> (taken: Vec<
    EwwNotification,
>)
    ensures
        final(notifications)@ == crate::notification_model::not_of_class(
            old(notifications)@,
            class@,
        ),
        taken@ == crate::notification_model::of_class(old(notifications)@, class@),
{
    let ghost all = notifications@;
    let mut taken: Vec<EwwNotification> = Vec::new();
    let mut i: usize = 0;
    let ghost mut seen: int = 0;
    proof {
        reveal(Seq::filter);
        assert(all.take(0) =~= Seq::empty());
        assert(all.skip(0) =~= all);
    }
    while i < notifications.len()
        invariant
            0 <= seen <= all.len(),
            notifications@ =~= crate::notification_model::not_of_class(all.take(seen), class@)
                + all.skip(seen),
            i == crate::notification_model::not_of_class(all.take(seen), class@).len(),
            taken@ == crate::notification_model::of_class(all.take(seen), class@),
        decreases notifications@.len() - i,
    {
        proof {
            reveal(Seq::filter);
            assert(all.skip(seen)[0] == all[seen]);
            assert(notifications@[i as int] == all[seen]);
            assert(all.take(seen + 1).drop_last() =~= all.take(seen));
        }
        if notifications[i].app_class == *class {
            if let Some(notification) = notifications.remove(i) {
                taken.push(notification);
            }
        } else {
            i += 1;
        }
        proof {
            seen = seen + 1;
        }
    }
    assert(all.take(seen) =~= all);
    taken
}

/// Takes out all notifications, from the last one on.
fn take_all(notifications: &mut VecDeque<EwwNotification>) -> (taken: Vec<EwwNotification>)
    ensures
        taken@ == old(notifications)@.reverse(),
        final(notifications)@ == Seq::<EwwNotification>::empty(),
{
    let ghost all = notifications@;
    let mut taken: Vec<EwwNotification> = Vec::new();
    while notifications.len() > 0
        invariant
            notifications@.len() + taken@.len() == all.len(),
            notifications@ =~= all.take(notifications@.len() as int),
            taken@ =~= all.reverse().take(taken@.len() as int),
        decreases notifications@.len(),
    {
        if let Some(notification) = notifications.pop_back() {
            taken.push(notification);
        }
    }
    taken
}

impl NotificationData {
    /// What is kept is in good order.
    pub closed spec fn wf(self) -> bool {
        self.images.wf() && self@.wf()
    }

    /// What is kept is in the order that the laws speak of.
    pub proof fn lemma_wf(self)
        requires
            self.wf(),
        ensures
            self@.wf(),
    {
    }

    /// Nothing is kept yet.
    pub fn new() -> (data: Self)
        ensures
            data.wf(),
            data@.groups == Seq::<GroupView>::empty(),
            data@.images == Map::<PathKey, nat>::empty(),
    {
        let data = NotificationData { groups: Vec::new(), images: ImageUses::new() };
        assert(data@.groups =~= Seq::<GroupView>::empty());
        data
    }

    /// The place of the group of an application.
    fn find_group(&self, app_name: &String) -> (place: Option<usize>)
        ensures
            match place {
                Some(i) => i < self@.groups.len() && self@.groups[i as int].app_name == app_name@
                    && crate::notification_model::group_place(self@.groups, app_name@) == i,
                None => crate::notification_model::group_place(self@.groups, app_name@)
                    == self@.groups.len(),
            },
    {
        let mut i: usize = 0;
        while i < self.groups.len()
            invariant
                i <= self.groups@.len(),
                forall|j: int| 0 <= j < i ==> (#[trigger] self@.groups[j]).app_name != app_name@,
            decreases self.groups@.len() - i,
        {
            if self.groups[i].app_name == *app_name {
                proof {
                    crate::notification_model::lemma_group_place(
                        self@.groups,
                        app_name@,
                        i as int,
                    );
                }
                return Some(i);
            }
            i += 1;
        }
        proof {
            crate::notification_model::lemma_group_place(self@.groups, app_name@, i as int);
        }
        None
    }

    /// Whether there is room to count one more use of the image of a notification.
    pub fn can_insert(&self, notification: &EwwNotification) -> (can: bool)
        requires
            self.wf(),
        ensures
            can == crate::images::room_for(self@.images, *notification),
    {
        self.images.can_acquire(notification)
    }

    /// Keeps a notification that came at the time `now`, in the place of the one of its application
    /// that has its id. Gives the image file that is used no more, if there is one.
    pub fn insert_or_replace(&mut self, notification: EwwNotification, now: u128) -> (unused:
        Option<PathBuf>)
        requires
            old(self).wf(),
            crate::images::room_for(old(self)@.images, notification),
        ensures
            final(self).wf(),
            final(self)@ == old(self)@.inserted(notification, now).0,
            match unused {
                Some(path) => old(self)@.inserted(notification, now).1 == Some(
                    crate::path::key_of(path),
                ),
                None => old(self)@.inserted(notification, now).1 is None,
            },
    {
        let ghost before = self@;
        self.images.acquire(&notification);
        let place = match self.find_group(&notification.app_name) {
            Some(i) => i,
            None => {
                let group = Group {
                    app_name: notification.app_name.clone(),
                    notifications: VecDeque::new(),
                    timestamp: 0,
                };
                self.groups.push(group);
                self.groups.len() - 1
            },
        };
        let ghost ready = self.groups@;
        proof {
            let group = crate::notification_model::group_of(before.groups, notification.app_name@);
            assert(ready[place as int]@ == group);
            assert(forall|i: int|
                0 <= i < before.groups.len() ==> (#[trigger] ready[i])@ == before.groups[i]);
        }
        let replaced = put_newest(&mut self.groups[place].notifications, notification);
        self.groups[place].timestamp = now;
        let unused = match replaced {
            Some(old_notification) => self.images.release(&old_notification),
            None => None,
        };
        proof {
            crate::notification_model::law_insert_keeps_order(before, notification, now);
            assert(self@.groups =~= before.inserted(notification, now).0.groups);
        }
        unused
    }

    /// Removes a notification: the first one with an id, in the first group that has one. Gives
    /// `None` if there is none, and else the image file that is used no more, if there is one.
    pub fn remove(&mut self, id: u32) -> (removed: Option<Option<PathBuf>>)
        requires
            old(self).wf(),
        ensures
            final(self).wf(),
            final(self)@ == old(self)@.without(id).0,
            removed is Some <==> crate::notification_model::id_group_place(old(self)@.groups, id)
                < old(self)@.groups.len(),
            match removed {
                Some(Some(path)) => old(self)@.without(id).1 == Some(crate::path::key_of(path)),
                _ => old(self)@.without(id).1 is None,
            },
    {
        let ghost before = self@;
        proof {
            crate::notification_model::law_remove_keeps_order(before, id);
        }
        let mut i: usize = 0;
        while i < self.groups.len()
            invariant
                before == old(self)@,
                before == self@,
                before.without(id).0.wf(),
                self.wf(),
                i <= self.groups@.len(),
                forall|j: int|
                    0 <= j < i ==> !crate::notification_model::has_id(
                        (#[trigger] before.groups[j]).notifications,
                        id,
                    ),
            decreases self.groups@.len() - i,
        {
            let taken = take_id(&mut self.groups[i].notifications, id);
            if let Some(notification) = taken {
                proof {
                    crate::notification_model::lemma_id_group_place(before.groups, id, i as int);
                }
                let unused = self.images.release(&notification);
                assert(self@.groups =~= before.without(id).0.groups);
                return Some(unused);
            }
            assert(self@.groups =~= before.groups);
            i += 1;
        }
        proof {
            crate::notification_model::lemma_id_group_place(before.groups, id, i as int);
        }
        None
    }

    /// Lets the images of some notifications go, one after the other, and adds the files that are
    /// used no more to `unused`.
    fn release_all(&mut self, gone: Vec<EwwNotification>, unused: &mut Vec<PathBuf>)
        requires
            old(self).images.wf(),
        ensures
            final(self).images.wf(),
            final(self).groups == old(self).groups,
            final(self).images@ == crate::images::all_released(old(self).images@, gone@).0,
            crate::path::keys_of(final(unused)@) == crate::path::keys_of(old(unused)@)
                + crate::images::all_released(old(self).images@, gone@).1,
    {
        let mut i: usize = 0;
        assert(gone@.take(0) =~= Seq::empty());
        while i < gone.len()
            invariant
                i <= gone@.len(),
                self.images.wf(),
                self.groups == old(self).groups,
                self.images@ == crate::images::all_released(
                    old(self).images@,
                    gone@.take(i as int),
                ).0,
                crate::path::keys_of(unused@) =~= crate::path::keys_of(old(unused)@)
                    + crate::images::all_released(old(self).images@, gone@.take(i as int)).1,
            decreases gone@.len() - i,
        {
            assert(gone@.take(i + 1).drop_last() =~= gone@.take(i as int));
            let ghost ready = unused@;
            if let Some(path) = self.images.release(&gone[i]) {
                unused.push(path);
                assert(crate::path::keys_of(unused@) =~= crate::path::keys_of(ready).push(
                    crate::path::key_of(path),
                ));
            }
            i += 1;
        }
        assert(gone@.take(i as int) =~= gone@);
    }

    /// Removes all notifications of a window class, which are those of the application with that
    /// name in lower case. Gives the image files that are used no more.
    pub fn clear_class(&mut self, class: &str) -> (unused: Vec<PathBuf>)
        requires
            old(self).wf(),
        ensures
            final(self).wf(),
            final(self)@ == old(self)@.cleared(crate::text::lowercase(class@)).0,
            crate::path::keys_of(unused@) == old(self)@.cleared(crate::text::lowercase(class@)).1,
    {
        let class = to_lowercase(class);
        let ghost before = self@;
        let ghost clear = |group: GroupView|
            GroupView {
                notifications: crate::notification_model::not_of_class(group.notifications, class@),
                ..group
            };
        let mut gone: Vec<EwwNotification> = Vec::new();
        let mut i: usize = 0;
        assert(before.groups.take(0) =~= Seq::empty());
        while i < self.groups.len()
            invariant
                i <= self.groups@.len(),
                self.images == old(self).images,
                before == old(self)@,
                self@.groups.len() == before.groups.len(),
                gone@ == crate::notification_model::all_of_class(
                    before.groups.take(i as int),
                    class@,
                ),
                forall|j: int|
                    0 <= j < self.groups@.len() ==> (#[trigger] self.groups@[j])@ == if j < i {
                        clear(before.groups[j])
                    } else {
                        before.groups[j]
                    },
                clear == (|group: GroupView|
                    GroupView {
                        notifications: crate::notification_model::not_of_class(
                            group.notifications,
                            class@,
                        ),
                        ..group
                    }),
            decreases self.groups@.len() - i,
        {
            let ghost ready = self.groups@;
            assert(before.groups.take(i + 1).drop_last() =~= before.groups.take(i as int));
            let mut removed = take_class(&mut self.groups[i].notifications, &class);
            gone.append(&mut removed);
            assert forall|j: int| 0 <= j < self.groups@.len() implies (#[trigger] self.groups@[j])@
                == if j < i + 1 {
                clear(before.groups[j])
            } else {
                before.groups[j]
            } by {
                assert(ready[j]@ == if j < i {
                    clear(before.groups[j])
                } else {
                    before.groups[j]
                });
                if j == i {
                    assert(self.groups@[j]@ =~= clear(before.groups[j]));
                } else {
                    assert(self.groups@[j] == ready[j]);
                }
            }
            i += 1;
        }
        assert(before.groups.take(i as int) =~= before.groups);
        assert(self@.groups =~= before.cleared(class@).0.groups);
        let mut unused: Vec<PathBuf> = Vec::new();
        self.release_all(gone, &mut unused);
        proof {
            crate::notification_model::law_clear_keeps_order(before, class@);
            assert(crate::path::keys_of(unused@) =~= before.cleared(class@).1);
        }
        unused
    }

    /// Lets all notifications go, when the program ends. Gives the image files that are used no
    /// more.
    pub fn cleanup(self) -> (unused: Vec<PathBuf>)
        requires
            self.wf(),
        ensures
            crate::path::keys_of(unused@) == crate::images::all_released(
                self@.images,
                crate::notification_model::all_from_oldest(self@.groups),
            ).1,
    {
        let ghost before = self@;
        let mut data = self;
        let mut gone: Vec<EwwNotification> = Vec::new();
        let mut i: usize = 0;
        assert(before.groups.take(0) =~= Seq::empty());
        while i < data.groups.len()
            invariant
                i <= data.groups@.len(),
                data.images == self.images,
                before == self@,
                data.groups@.len() == before.groups.len(),
                forall|j: int|
                    i <= j < data.groups@.len() ==> (#[trigger] data.groups@[j])@
                        == before.groups[j],
                gone@ == crate::notification_model::all_from_oldest(before.groups.take(i as int)),
            decreases data.groups@.len() - i,
        {
            let ghost ready = data.groups@;
            assert(before.groups.take(i + 1).drop_last() =~= before.groups.take(i as int));
            let mut removed = take_all(&mut data.groups[i].notifications);
            gone.append(&mut removed);
            assert forall|j: int| i < j < data.groups@.len() implies (#[trigger] data.groups@[j])@
                == before.groups[j] by {
                assert(data.groups@[j] == ready[j]);
            }
            i += 1;
        }
        assert(before.groups.take(i as int) =~= before.groups);
        let mut unused: Vec<PathBuf> = Vec::new();
        data.release_all(gone, &mut unused);
        assert(crate::path::keys_of(unused@) =~= crate::images::all_released(
            before.images,
            crate::notification_model::all_from_oldest(before.groups),
        ).1);
        unused
    }

    /// The groups, in the order in which they are shown.
    pub fn groups(&self) -> (groups: Vec<&Group>)
        requires
            self.wf(),
        ensures
            crate::group_order::in_shown_order(crate::group_order::views(groups@)),
            crate::group_order::views(groups@).to_multiset() == self@.groups.to_multiset(),
    {
        assert(self.groups@.map_values(|group: Group| group@) =~= self@.groups);
        shown_groups(&self.groups)
    }
}

} // verus!

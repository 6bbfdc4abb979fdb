//! The order in which groups of notifications are shown.
use crate::notification::EwwNotification;
use crate::notification_data::Group;
use crate::notification_model::{GroupView, NotificationView};
use crate::text::precedes;
use vstd::prelude::*;

verus! {

/// The group with the newest notification comes first. Groups of the same time come in the order of
/// their applications.
pub open spec fn shown_before(a: GroupView, b: GroupView) -> bool {
    ||| a.timestamp > b.timestamp
    ||| a.timestamp == b.timestamp && crate::text::text_lt(a.app_name, b.app_name)
}

/// Each group comes after those before it.
pub open spec fn in_shown_order(groups: Seq<GroupView>) -> bool {
    forall|i: int, j: int|
        0 <= i < j < groups.len() ==> shown_before(#[trigger] groups[i], #[trigger] groups[j])
}

/// The application of each group is another one.
pub open spec fn names_differ(groups: Seq<GroupView>) -> bool {
    forall|i: int, j: int|
        0 <= i < j < groups.len() ==> (#[trigger] groups[i]).app_name != (
        #[trigger] groups[j]).app_name
}

/// What some groups hold.
pub open spec fn views(groups: Seq<&Group>) -> Seq<GroupView> {
    groups.map_values(|group: &Group| group@)
}

proof fn lemma_shown_transitive(a: GroupView, b: GroupView, c: GroupView)
    requires
        shown_before(a, b),
        shown_before(b, c),
    ensures
        shown_before(a, c),
{
    if crate::text::text_lt(a.app_name, b.app_name) && crate::text::text_lt(
        b.app_name,
        c.app_name,
    ) {
        crate::text::law_order_transitive(a.app_name, b.app_name, c.app_name);
    }
}

/// A group that is put after those that come before it keeps a list in order.
proof fn lemma_insert_shown(list: Seq<GroupView>, place: int, group: GroupView)
    requires
        in_shown_order(list),
        0 <= place <= list.len(),
        forall|i: int| 0 <= i < list.len() ==> (#[trigger] list[i]).app_name != group.app_name,
        forall|i: int| 0 <= i < place ==> shown_before(#[trigger] list[i], group),
        place < list.len() ==> !shown_before(list[place], group),
    ensures
        in_shown_order(list.insert(place, group)),
        list.insert(place, group).to_multiset() == list.to_multiset().insert(group),
{
    broadcast use vstd::seq_lib::group_to_multiset_ensures;

    assert forall|i: int| place <= i < list.len() implies shown_before(
        group,
        #[trigger] list[i],
    ) by {
        assert(list[place].app_name != group.app_name);
        crate::text::law_order_total(group.app_name, list[place].app_name);
        if i > place {
            lemma_shown_transitive(group, list[place], list[i]);
        }
    }
    let after = list.insert(place, group);
    assert forall|i: int, j: int| 0 <= i < j < after.len() implies shown_before(
        #[trigger] after[i],
        #[trigger] after[j],
    ) by {
        let at = |k: int| if k < place { k } else { k - 1 };
        if i != place {
            assert(after[i] == list[at(i)]);
        }
        if j != place {
            assert(after[j] == list[at(j)]);
        }
    }
}

fn is_shown_before(a: &Group, b: &Group) -> (before: bool)
    ensures
        before == shown_before(a@, b@),
{
    a.timestamp > b.timestamp || (a.timestamp == b.timestamp && precedes(
        a.app_name.as_str(),
        b.app_name.as_str(),
    ))
}

/// Some groups of different applications, in the order in which they are shown.
pub fn shown_groups(groups: &Vec<Group>) -> (list: Vec<&Group>)
    requires
        names_differ(groups@.map_values(|group: Group| group@)),
    ensures
        in_shown_order(views(list@)),
        views(list@).to_multiset() == groups@.map_values(|group: Group| group@).to_multiset(),
{
    let ghost all = groups@.map_values(|group: Group| group@);
    let mut list: Vec<&Group> = Vec::new();
    let mut i: usize = 0;
    assert(views(list@) =~= all.take(0));
    while i < groups.len()
        invariant
            all == groups@.map_values(|group: Group| group@),
            names_differ(all),
            i <= groups@.len(),
            in_shown_order(views(list@)),
            views(list@).to_multiset() == all.take(i as int).to_multiset(),
        decreases groups@.len() - i,
    {
        let group = &groups[i];
        let mut place: usize = 0;
        while place < list.len() && is_shown_before(list[place], group)
            invariant
                place <= list@.len(),
                forall|j: int|
                    0 <= j < place ==> shown_before(#[trigger] views(list@)[j], group@),
            decreases list@.len() - place,
        {
            place += 1;
        }
        let ghost before = views(list@);
        proof {
            assert forall|j: int| 0 <= j < before.len() implies (#[trigger] before[j]).app_name
                != group@.app_name by {
                assert(before.contains(before[j]));
                before.to_multiset_ensures();
                all.take(i as int).to_multiset_ensures();
                assert(before.to_multiset().count(before[j]) > 0);
                assert(all.take(i as int).contains(before[j]));
                let k = choose|k: int| 0 <= k < i && all.take(i as int)[k] == before[j];
                assert(all[k].app_name != all[i as int].app_name);
            }
            lemma_insert_shown(before, place as int, group@);
        }
        list.insert(place, group);
        assert(views(list@) =~= before.insert(place as int, group@));
        proof {
            all.take(i as int).to_multiset_ensures();
            assert(all.take(i + 1) =~= all.take(i as int).push(group@));
        }
        i += 1;
    }
    assert(all.take(i as int) =~= all);
    list
}

/// Lists that are in order and hold the same groups are the same.
pub proof fn law_one_order(a: Seq<GroupView>, b: Seq<GroupView>)
    requires
        in_shown_order(a),
        in_shown_order(b),
        a.to_multiset() == b.to_multiset(),
    ensures
        a == b,
    decreases a.len(),
{
    broadcast use vstd::seq_lib::group_to_multiset_ensures;

    a.to_multiset_ensures();
    b.to_multiset_ensures();
    if a.len() == 0 {
        assert(a =~= b);
    } else {
        assert(a.contains(a[0]) && b.contains(b[0]));
        assert(a.to_multiset().count(b[0]) > 0 && b.to_multiset().count(a[0]) > 0);
        assert(b.contains(a[0]) && a.contains(b[0]));
        let i = choose|i: int| 0 <= i < b.len() && b[i] == a[0];
        let j = choose|j: int| 0 <= j < a.len() && a[j] == b[0];
        if i > 0 {
            crate::text::law_order_irreflexive(a[0].app_name);
            assert(shown_before(b[0], b[i]));
            if j > 0 {
                assert(shown_before(a[0], a[j]));
                lemma_shown_transitive(a[0], b[0], a[0]);
            }
        }
        let rest_a = a.remove(0);
        let rest_b = b.remove(0);
        assert(in_shown_order(rest_a) && in_shown_order(rest_b));
        law_one_order(rest_a, rest_b);
        assert(a =~= seq![a[0]] + rest_a);
        assert(b =~= seq![b[0]] + rest_b);
    }
}

/// The application of the notification that came last is shown first, with that notification in
/// front.
pub proof fn law_latest_group_comes_first(
    list: Seq<GroupView>,
    data: NotificationView,
    newest: EwwNotification,
    now: u128,
)
    requires
        data.wf(),
        forall|i: int| 0 <= i < data.groups.len() ==> (#[trigger] data.groups[i]).timestamp < now,
        in_shown_order(list),
        list.to_multiset() == data.inserted(newest, now).0.groups.to_multiset(),
    ensures
        list.len() > 0,
        list[0].app_name == newest.app_name@,
        list[0].timestamp == now,
        list[0].notifications.len() > 0,
        list[0].notifications[0] == newest,
{
    let name = newest.app_name@;
    let groups = data.inserted(newest, now).0.groups;
    let place = crate::notification_model::group_place(data.groups, name);
    crate::notification_model::lemma_group_found(data.groups, name);
    let group = groups[place];
    list.to_multiset_ensures();
    groups.to_multiset_ensures();
    assert(groups.contains(group));
    assert(list.to_multiset().count(group) > 0);
    assert(list.contains(group));
    let k = choose|k: int| 0 <= k < list.len() && list[k] == group;
    assert(list.contains(list[0]));
    assert(groups.to_multiset().count(list[0]) > 0);
    assert(groups.contains(list[0]));
    let first = choose|i: int| 0 <= i < groups.len() && groups[i] == list[0];
    if first != place {
        assert(groups[first] == data.groups[first]);
        assert(shown_before(list[0], list[k]));
    }
}

/// In the order in which they are shown, no group is newer than one before it, and groups of one
/// time come in the order of their applications.
pub proof fn law_shown_newest_first(list: Seq<GroupView>, i: int, j: int)
    requires
        in_shown_order(list),
        0 <= i < j < list.len(),
    ensures
        list[i].timestamp >= list[j].timestamp,
        list[i].timestamp == list[j].timestamp ==> crate::text::text_lt(
            list[i].app_name,
            list[j].app_name,
        ),
{
}

} // verus!

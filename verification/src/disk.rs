//! The mounted disks.
use crate::data::DiskInfo;
use crate::text::{precedes, same_text};
use vstd::prelude::*;

verus! {

/// Disks by mount point, in the order of their mount points.
#[derive(Clone, PartialEq, Debug)]
pub struct DiskTable {
    disks: Vec<DiskInfo>,
}

impl View for DiskTable {
    type V = Map<Seq<char>, DiskInfo>;

    closed spec fn view(&self) -> Map<Seq<char>, DiskInfo> {
        Map::new(
            |mount_point: Seq<char>| exists|i: int| self.mounted(i, mount_point),
            |mount_point: Seq<char>| self.disks@[self.index_of(mount_point)],
        )
    }
}

/// Whether a disk is listed: automatic mounts and the boot partition are not.
pub open spec fn shown(disk: DiskInfo) -> bool {
    disk.name@ != "systemd-1"@ && disk.mount_point@ != "/efi"@
}

/// The order of the list: by name, and disks of one name by mount point.
pub open spec fn listed_before(a: DiskInfo, b: DiskInfo) -> bool {
    ||| crate::text::text_lt(a.name@, b.name@)
    ||| a.name@ == b.name@ && crate::text::text_lt(a.mount_point@, b.mount_point@)
}

/// Each disk comes after those before it.
pub open spec fn in_list_order(disks: Seq<DiskInfo>) -> bool {
    forall|i: int, j: int|
        0 <= i < j < disks.len() ==> listed_before(#[trigger] disks[i], #[trigger] disks[j])
}

proof fn lemma_listed_transitive(a: DiskInfo, b: DiskInfo, c: DiskInfo)
    requires
        listed_before(a, b),
        listed_before(b, c),
    ensures
        listed_before(a, c),
{
    if crate::text::text_lt(a.name@, b.name@) && crate::text::text_lt(b.name@, c.name@) {
        crate::text::law_order_transitive(a.name@, b.name@, c.name@);
    }
    if crate::text::text_lt(a.mount_point@, b.mount_point@) && crate::text::text_lt(
        b.mount_point@,
        c.mount_point@,
    ) {
        crate::text::law_order_transitive(a.mount_point@, b.mount_point@, c.mount_point@);
    }
}

fn is_shown(disk: &DiskInfo) -> (listed: bool)
    ensures
        listed == shown(*disk),
{
    !same_text(disk.name.as_str(), "systemd-1") && !same_text(disk.mount_point.as_str(), "/efi")
}

fn is_listed_before(a: &DiskInfo, b: &DiskInfo) -> (before: bool)
    ensures
        before == listed_before(*a, *b),
{
    precedes(a.name.as_str(), b.name.as_str()) || (same_text(a.name.as_str(), b.name.as_str())
        && precedes(a.mount_point.as_str(), b.mount_point.as_str()))
}

/// Adds a disk to a list, at its place.
fn insert_listed(list: &mut Vec<DiskInfo>, disk: DiskInfo)
    requires
        in_list_order(old(list)@),
        forall|i: int|
            0 <= i < old(list)@.len() ==> (#[trigger] old(list)@[i]).mount_point@
                != disk.mount_point@,
    ensures
        in_list_order(final(list)@),
        forall|other: DiskInfo|
            final(list)@.contains(other) <==> old(list)@.contains(other) || other == disk,
{
    let mut place: usize = 0;
    while place < list.len() && is_listed_before(&list[place], &disk)
        invariant
            place <= list@.len(),
            list@ == old(list)@,
            forall|i: int| 0 <= i < place ==> listed_before(#[trigger] list@[i], disk),
        decreases list@.len() - place,
    {
        place += 1;
    }
    let ghost before = list@;
    proof {
        assert forall|i: int| place <= i < before.len() implies listed_before(
            disk,
            #[trigger] before[i],
        ) by {
            let first = before[place as int];
            crate::text::law_order_total(disk.name@, first.name@);
            crate::text::law_order_total(disk.mount_point@, first.mount_point@);
            assert(first.mount_point@ != disk.mount_point@);
            assert(listed_before(disk, first));
            if i > place {
                lemma_listed_transitive(disk, first, before[i]);
            }
        }
    }
    list.insert(place, disk);
    proof {
        let after = list@;
        assert forall|i: int, j: int| 0 <= i < j < after.len() implies listed_before(
            #[trigger] after[i],
            #[trigger] after[j],
        ) by {
            let at = |k: int| if k < place { k } else { k - 1 };
            if i != place {
                assert(after[i] == before[at(i)]);
            }
            if j != place {
                assert(after[j] == before[at(j)]);
            }
        }
        assert forall|other: DiskInfo| after.contains(other) <==> before.contains(other) || other
            == disk by {
            if before.contains(other) {
                let k = choose|k: int| 0 <= k < before.len() && before[k] == other;
                assert(after[if k < place {
                    k
                } else {
                    k + 1
                }] == other);
            }
            if after.contains(other) && other != disk {
                let k = choose|k: int| 0 <= k < after.len() && after[k] == other;
                assert(before[if k < place {
                    k
                } else {
                    k - 1
                }] == other);
            }
            assert(after[place as int] == disk);
        }
    }
}

impl DiskTable {
    spec fn mounted(self, i: int, mount_point: Seq<char>) -> bool {
        0 <= i < self.disks@.len() && self.disks@[i].mount_point@ == mount_point
    }

    spec fn index_of(self, mount_point: Seq<char>) -> int {
        choose|i: int| self.mounted(i, mount_point)
    }

    /// The disks are in the order of their mount points, which all differ.
    pub closed spec fn wf(self) -> bool {
        forall|i: int, j: int|
            0 <= i < j < self.disks@.len() ==> crate::text::text_lt(
                (#[trigger] self.disks@[i]).mount_point@,
                (#[trigger] self.disks@[j]).mount_point@,
            )
    }

    proof fn lemma_at(self, i: int)
        requires
            self.wf(),
            0 <= i < self.disks@.len(),
        ensures
            self@.contains_key(self.disks@[i].mount_point@),
            self@[self.disks@[i].mount_point@] == self.disks@[i],
    {
        let mount_point = self.disks@[i].mount_point@;
        assert(self.mounted(i, mount_point));
        let j = self.index_of(mount_point);
        assert(self.mounted(j, mount_point));
        crate::text::law_order_irreflexive(mount_point);
        assert(i == j);
    }

    /// No disks.
    pub fn new() -> (table: Self)
        ensures
            table.wf(),
            table@ == Map::<Seq<char>, DiskInfo>::empty(),
    {
        let table = DiskTable { disks: Vec::new() };
        assert(forall|i: int, mount_point: Seq<char>| !table.mounted(i, mount_point));
        assert(table@ =~= Map::<Seq<char>, DiskInfo>::empty());
        table
    }

    /// Adds a disk, in the place of the one that was at its mount point, if any.
    pub fn insert(&mut self, disk: DiskInfo)
        requires
            old(self).wf(),
        ensures
            final(self).wf(),
            final(self)@ == old(self)@.insert(disk.mount_point@, disk),
    {
        let mut place: usize = 0;
        while place < self.disks.len() && precedes(
            self.disks[place].mount_point.as_str(),
            disk.mount_point.as_str(),
        )
            invariant
                *self == *old(self),
                self.wf(),
                place <= self.disks@.len(),
                forall|i: int|
                    0 <= i < place ==> crate::text::text_lt(
                        (#[trigger] self.disks@[i]).mount_point@,
                        disk.mount_point@,
                    ),
            decreases self.disks@.len() - place,
        {
            place += 1;
        }
        let ghost key = disk.mount_point@;
        let ghost before = self.disks@;
        if place < self.disks.len() && same_text(
            self.disks[place].mount_point.as_str(),
            disk.mount_point.as_str(),
        ) {
            self.disks.set(place, disk);
        } else {
            proof {
                assert forall|i: int| place <= i < before.len() implies crate::text::text_lt(
                    key,
                    (#[trigger] before[i]).mount_point@,
                ) by {
                    let first = before[place as int].mount_point@;
                    crate::text::law_order_total(key, first);
                    if i > place {
                        crate::text::law_order_transitive(key, first, before[i].mount_point@);
                    }
                }
            }
            self.disks.insert(place, disk);
        }
        proof {
            let replaced = self.disks@.len() == before.len();
            let at = |k: int| if k < place || replaced { k } else { k - 1 };
            assert forall|i: int, j: int|
                0 <= i < j < self.disks@.len() implies crate::text::text_lt(
                (#[trigger] self.disks@[i]).mount_point@,
                (#[trigger] self.disks@[j]).mount_point@,
            ) by {
                if i != place {
                    assert(self.disks@[i] == before[at(i)]);
                }
                if j != place {
                    assert(self.disks@[j] == before[at(j)]);
                }
            }
            assert(self.wf());
            self.lemma_at(place as int);
            assert forall|other: Seq<char>|
                self@.contains_key(other) == old(self)@.insert(key, disk).contains_key(other) by {
                if self@.contains_key(other) && other != key {
                    let k = choose|k: int| self.mounted(k, other);
                    assert(self.disks@[k] == before[at(k)]);
                    assert(old(self).mounted(at(k), other));
                }
                if old(self)@.contains_key(other) && other != key {
                    let k = choose|k: int| old(self).mounted(k, other);
                    let l = if k < place || replaced { k } else { k + 1 };
                    assert(self.disks@[l] == before[k]);
                    assert(self.mounted(l, other));
                }
            }
            assert forall|other: Seq<char>| #[trigger]
                self@.contains_key(other) implies self@[other]
                == old(self)@.insert(key, disk)[other] by {
                let k = choose|k: int| self.mounted(k, other);
                self.lemma_at(k);
                if other != key {
                    assert(self.disks@[k] == before[at(k)]);
                    old(self).lemma_at(at(k));
                }
            }
            assert(self@ =~= old(self)@.insert(key, disk));
        }
    }

    /// The disks that are listed, in the order of the list.
    pub fn listed(&self) -> (list: Vec<DiskInfo>)
        requires
            self.wf(),
        ensures
            in_list_order(list@),
            forall|disk: DiskInfo| #[trigger]
                list@.contains(disk) <==> self@.contains_key(disk.mount_point@)
                    && self@[disk.mount_point@] == disk && shown(disk),
    {
        let mut list: Vec<DiskInfo> = Vec::new();
        let mut i: usize = 0;
        while i < self.disks.len()
            invariant
                self.wf(),
                i <= self.disks@.len(),
                in_list_order(list@),
                forall|disk: DiskInfo| #[trigger]
                    list@.contains(disk) <==> shown(disk) && exists|j: int|
                        0 <= j < i && self.disks@[j] == disk,
            decreases self.disks@.len() - i,
        {
            let ghost so_far = list@;
            if is_shown(&self.disks[i]) {
                let disk = self.disks[i].clone();
                proof {
                    assert forall|k: int| 0 <= k < so_far.len() implies (
                    #[trigger] so_far[k]).mount_point@ != disk.mount_point@ by {
                        assert(so_far.contains(so_far[k]));
                        let j = choose|j: int| 0 <= j < i && self.disks@[j] == so_far[k];
                        crate::text::law_order_irreflexive(disk.mount_point@);
                        assert(crate::text::text_lt(
                            self.disks@[j].mount_point@,
                            self.disks@[i as int].mount_point@,
                        ));
                    }
                }
                insert_listed(&mut list, disk);
            }
            proof {
                assert forall|disk: DiskInfo| #[trigger]
                    list@.contains(disk) <==> shown(disk) && exists|j: int|
                        0 <= j < i + 1 && self.disks@[j] == disk by {
                    if list@.contains(disk) && so_far.contains(disk) {
                        let j = choose|j: int| 0 <= j < i && self.disks@[j] == disk;
                        assert(self.disks@[j] == disk);
                    }
                    if shown(disk) && exists|j: int| 0 <= j < i + 1 && self.disks@[j] == disk {
                        let j = choose|j: int| 0 <= j < i + 1 && self.disks@[j] == disk;
                        if j < i {
                            assert(so_far.contains(disk));
                        }
                    }
                }
            }
            i += 1;
        }
        proof {
            assert forall|disk: DiskInfo| #[trigger]
                list@.contains(disk) <==> self@.contains_key(disk.mount_point@)
                    && self@[disk.mount_point@] == disk && shown(disk) by {
                if list@.contains(disk) {
                    let j = choose|j: int| 0 <= j < i && self.disks@[j] == disk;
                    self.lemma_at(j);
                }
                if self@.contains_key(disk.mount_point@) && self@[disk.mount_point@] == disk {
                    let j = choose|j: int| self.mounted(j, disk.mount_point@);
                    self.lemma_at(j);
                    assert(self.disks@[j] == disk);
                }
            }
        }
        list
    }
}

/// The disks by mount point, where a later one takes the place of one before.
pub open spec fn by_mount_point(disks: Seq<DiskInfo>) -> Map<Seq<char>, DiskInfo>
    decreases disks.len(),
{
    if disks.len() == 0 {
        Map::empty()
    } else {
        by_mount_point(disks.drop_last()).insert(disks.last().mount_point@, disks.last())
    }
}

/// Puts disks into a table of their own.
pub fn collected(disks: Vec<DiskInfo>) -> (table: DiskTable)
    ensures
        table.wf(),
        table@ == by_mount_point(disks@),
{
    let mut table = DiskTable::new();
    let mut i: usize = 0;
    assert(disks@.take(0) =~= Seq::empty());
    while i < disks.len()
        invariant
            i <= disks@.len(),
            table.wf(),
            table@ == by_mount_point(disks@.take(i as int)),
        decreases disks@.len() - i,
    {
        assert(disks@.take(i + 1).drop_last() =~= disks@.take(i as int));
        table.insert(disks[i].clone());
        i += 1;
    }
    assert(disks@.take(i as int) =~= disks@);
    table
}

/// The mount points of a table are those of the disks that it was made of, and nothing else is in
/// it: each has the last of its disks.
pub proof fn law_last_disk_at_a_mount_point(disks: Seq<DiskInfo>, mount_point: Seq<char>)
    ensures
        by_mount_point(disks).contains_key(mount_point) <==> exists|i: int|
            0 <= i < disks.len() && (#[trigger] disks[i]).mount_point@ == mount_point,
        forall|i: int|
            0 <= i < disks.len() && (#[trigger] disks[i]).mount_point@ == mount_point && (forall|
                j: int,
            |
                i < j < disks.len() ==> (#[trigger] disks[j]).mount_point@ != mount_point)
                ==> by_mount_point(disks)[mount_point] == disks[i],
    decreases disks.len(),
{
    if disks.len() > 0 {
        let before = disks.drop_last();
        let last = disks.len() - 1;
        law_last_disk_at_a_mount_point(before, mount_point);
        assert(forall|i: int| 0 <= i < last ==> #[trigger] before[i] == disks[i]);
        if by_mount_point(before).contains_key(mount_point) {
            let i = choose|i: int|
                0 <= i < before.len() && (#[trigger] before[i]).mount_point@ == mount_point;
            assert(disks[i].mount_point@ == mount_point);
        }
        if disks.last().mount_point@ == mount_point {
            assert(disks[last].mount_point@ == mount_point);
        } else if exists|i: int|
            0 <= i < disks.len() && (#[trigger] disks[i]).mount_point@ == mount_point {
            let i = choose|i: int|
                0 <= i < disks.len() && (#[trigger] disks[i]).mount_point@ == mount_point;
            assert(before[i].mount_point@ == mount_point);
        }
        assert forall|i: int|
            0 <= i < disks.len() && (#[trigger] disks[i]).mount_point@ == mount_point && (forall|
                j: int,
            |
                i < j < disks.len() ==> (#[trigger] disks[j]).mount_point@
                    != mount_point) implies by_mount_point(disks)[mount_point] == disks[i] by {
            if i < last {
                assert(disks[last].mount_point@ != mount_point);
                assert(before[i] == disks[i]);
                assert(forall|j: int|
                    i < j < before.len() ==> (#[trigger] before[j]).mount_point@ != mount_point);
            }
        }
    }
}

/// Lists that are in order and hold the same disks are the same.
pub proof fn law_one_list(a: Seq<DiskInfo>, b: Seq<DiskInfo>)
    requires
        in_list_order(a),
        in_list_order(b),
        forall|disk: DiskInfo|
            #![trigger a.contains(disk)]
            #![trigger b.contains(disk)]
            a.contains(disk) <==> b.contains(disk),
    ensures
        a == b,
    decreases a.len(),
{
    if a.len() == 0 || b.len() == 0 {
        if a.len() > 0 {
            assert(a.contains(a[0]));
        }
        if b.len() > 0 {
            assert(b.contains(b[0]));
        }
        assert(a =~= b);
    } else {
        assert(a.contains(a[0]) && b.contains(b[0]));
        let i = choose|i: int| 0 <= i < b.len() && b[i] == a[0];
        let j = choose|j: int| 0 <= j < a.len() && a[j] == b[0];
        if i > 0 {
            assert(listed_before(b[0], b[i]));
            assert(j > 0 ==> listed_before(a[0], a[j]));
            lemma_listed_irreflexive(a[0]);
            if j > 0 {
                lemma_listed_transitive(a[0], b[0], a[0]);
            }
        }
        let rest_a = a.drop_first();
        let rest_b = b.drop_first();
        assert forall|disk: DiskInfo|
            #![trigger rest_a.contains(disk)]
            #![trigger rest_b.contains(disk)]
            rest_a.contains(disk) <==> rest_b.contains(disk) by {
            lemma_listed_irreflexive(a[0]);
            if rest_a.contains(disk) {
                let k = choose|k: int| 0 <= k < rest_a.len() && rest_a[k] == disk;
                assert(a[k + 1] == disk && listed_before(a[0], a[k + 1]));
                assert(a.contains(disk));
                let l = choose|l: int| 0 <= l < b.len() && b[l] == disk;
                assert(rest_b[l - 1] == disk);
            }
            if rest_b.contains(disk) {
                let k = choose|k: int| 0 <= k < rest_b.len() && rest_b[k] == disk;
                assert(b[k + 1] == disk && listed_before(b[0], b[k + 1]));
                assert(b.contains(disk));
                let l = choose|l: int| 0 <= l < a.len() && a[l] == disk;
                assert(rest_a[l - 1] == disk);
            }
        }
        assert(in_list_order(rest_a) && in_list_order(rest_b));
        law_one_list(rest_a, rest_b);
        assert(a =~= seq![a[0]] + rest_a);
        assert(b =~= seq![b[0]] + rest_b);
    }
}

proof fn lemma_listed_irreflexive(a: DiskInfo)
    ensures
        !listed_before(a, a),
{
    crate::text::law_order_irreflexive(a.name@);
    crate::text::law_order_irreflexive(a.mount_point@);
}

/// A disk is shown unless it is called `systemd-1` or mounted at `/efi`, whatever its usage. So two
/// disks that agree in name and mount point are both shown, or neither is.
pub proof fn law_shown_by_name_and_mount_point(a: DiskInfo, b: DiskInfo)
    ensures
        shown(a) <==> a.name@ != "systemd-1"@ && a.mount_point@ != "/efi"@,
        a.name@ == b.name@ && a.mount_point@ == b.mount_point@ ==> shown(a) == shown(b),
{
}

/// In a list, a name comes after a smaller one, and after the same name at a smaller mount point.
pub proof fn law_listed_by_name(list: Seq<DiskInfo>, i: int, j: int)
    requires
        in_list_order(list),
        0 <= i < j < list.len(),
    ensures
        crate::text::text_lt(list[i].name@, list[j].name@) || list[i].name@ == list[j].name@
            && crate::text::text_lt(list[i].mount_point@, list[j].mount_point@),
{
}

} // verus!

//! How many notifications use each image that was written to disk for them.
use crate::notification::EwwNotification;
use crate::path::{copy_path, PathKey};
use crate::table::Index;
use std::path::PathBuf;
use vstd::prelude::*;

verus! {

/// The number of uses of each image file. A file that is not used is not listed.
#[derive(Debug)]
pub struct ImageUses {
    counts: Index<PathBuf, usize>,
}

/// The file that was written to disk for a notification, if any.
pub open spec fn held_image(notification: EwwNotification) -> Option<PathKey> {
    match notification.image_path {
        Some(path) if notification.tmp_image => Some(crate::path::key_of(path)),
        _ => None,
    }
}

/// The number of uses of a file.
pub open spec fn uses_of(uses: Map<PathKey, nat>, path: PathKey) -> nat {
    if uses.contains_key(path) {
        uses[path]
    } else {
        0
    }
}

/// The uses after a notification came.
pub open spec fn acquired(
    uses: Map<PathKey, nat>,
    notification: EwwNotification,
) -> Map<PathKey, nat> {
    match held_image(notification) {
        Some(path) => uses.insert(path, uses_of(uses, path) + 1),
        None => uses,
    }
}

/// The uses after a notification went, and the file that is used no more, if there is one.
pub open spec fn released(uses: Map<PathKey, nat>, notification: EwwNotification) -> (
    Map<PathKey, nat>,
    Option<PathKey>,
) {
    match held_image(notification) {
        Some(path) => if uses_of(uses, path) == 1 {
            (uses.remove(path), Some(path))
        } else if uses_of(uses, path) > 1 {
            (uses.insert(path, (uses_of(uses, path) - 1) as nat), None)
        } else {
            (uses, None)
        },
        None => (uses, None),
    }
}

/// The uses after some notifications went, one after the other, and the files that are used no
/// more.
pub open spec fn all_released(uses: Map<PathKey, nat>, gone: Seq<EwwNotification>) -> (
    Map<PathKey, nat>,
    Seq<PathKey>,
)
    decreases gone.len(),
{
    if gone.len() == 0 {
        (uses, Seq::empty())
    } else {
        let (before, files) = all_released(uses, gone.drop_last());
        let (after, file) = released(before, gone.last());
        (
            after,
            match file {
                Some(path) => files.push(path),
                None => files,
            },
        )
    }
}

/// The use of its image by one more notification can be counted.
pub open spec fn room_for(uses: Map<PathKey, nat>, notification: EwwNotification) -> bool {
    held_image(notification) matches Some(path) ==> uses_of(uses, path) < usize::MAX
}

/// How many of some notifications use a file.
pub open spec fn holders(notifications: Seq<EwwNotification>, path: PathKey) -> nat
    decreases notifications.len(),
{
    if notifications.len() == 0 {
        0
    } else {
        holders(notifications.drop_last(), path) + if held_image(notifications.last()) == Some(
            path,
        ) {
            1nat
        } else {
            0nat
        }
    }
}

impl View for ImageUses {
    type V = Map<PathKey, nat>;

    closed spec fn view(&self) -> Map<PathKey, nat> {
        self.counts@.map_values(|count: usize| count as nat)
    }
}

impl ImageUses {
    /// Each file that is listed is used.
    pub closed spec fn wf(self) -> bool {
        &&& self.counts.wf()
        &&& forall|path: PathKey| #[trigger]
            self.counts@.contains_key(path) ==> self.counts@[path] > 0
    }

    /// No uses.
    pub fn new() -> (uses: Self)
        ensures
            uses.wf(),
            uses@ == Map::<PathKey, nat>::empty(),
    {
        let uses = ImageUses { counts: Index::new() };
        assert(uses@ =~= Map::<PathKey, nat>::empty());
        uses
    }

    /// Whether there is room to count one more use of the image of a notification.
    pub fn can_acquire(&self, notification: &EwwNotification) -> (can: bool)
        requires
            self.wf(),
        ensures
            can == room_for(self@, *notification),
    {
        if notification.tmp_image {
            if let Some(path) = &notification.image_path {
                if let Some(count) = self.counts.get(path) {
                    return *count < usize::MAX;
                }
            }
        }
        true
    }

    /// Counts the use of its image by a notification that came.
    pub fn acquire(&mut self, notification: &EwwNotification)
        requires
            old(self).wf(),
            room_for(old(self)@, *notification),
        ensures
            final(self).wf(),
            final(self)@ == acquired(old(self)@, *notification),
    {
        if notification.tmp_image {
            if let Some(path) = &notification.image_path {
                let count = match self.counts.get(path) {
                    Some(count) => *count + 1,
                    None => 1,
                };
                self.counts.insert(copy_path(path), count);
                assert(self@ =~= acquired(old(self)@, *notification));
            }
        }
    }

    /// Counts off the use of its image by a notification that went, and gives the file if that was
    /// its last use.
    pub fn release(&mut self, notification: &EwwNotification) -> (unused: Option<PathBuf>)
        requires
            old(self).wf(),
        ensures
            final(self).wf(),
            final(self)@ == released(old(self)@, *notification).0,
            match unused {
                Some(path) => released(old(self)@, *notification).1 == Some(
                    crate::path::key_of(path),
                ),
                None => released(old(self)@, *notification).1 is None,
            },
    {
        if notification.tmp_image {
            if let Some(path) = &notification.image_path {
                let count = match self.counts.get(path) {
                    Some(count) => *count,
                    None => 0,
                };
                if count == 1 {
                    self.counts.remove(path);
                    assert(self@ =~= old(self)@.remove(crate::path::key_of(*path)));
                    return Some(copy_path(path));
                } else if count > 1 {
                    self.counts.insert(copy_path(path), count - 1);
                    assert(self@ =~= released(old(self)@, *notification).0);
                }
            }
        }
        None
    }
}

/// Each file that is listed is used.
pub open spec fn all_used(uses: Map<PathKey, nat>) -> bool {
    forall|path: PathKey| #[trigger] uses.contains_key(path) ==> uses[path] > 0
}

/// One if the notification uses the file, and zero if not.
pub open spec fn holds(notification: EwwNotification, path: PathKey) -> nat {
    if held_image(notification) == Some(path) {
        1
    } else {
        0
    }
}

/// A notification that comes is one more use of its image, and of no other.
pub proof fn law_acquire_counts_one(
    uses: Map<PathKey, nat>,
    notification: EwwNotification,
    path: PathKey,
)
    requires
        all_used(uses),
    ensures
        uses_of(acquired(uses, notification), path) == uses_of(uses, path) + holds(
            notification,
            path,
        ),
        all_used(acquired(uses, notification)),
{
}

/// A notification that goes is one use less of its image, if there was one, and the file is given
/// up exactly when that was the last use.
pub proof fn law_release_counts_one(
    uses: Map<PathKey, nat>,
    notification: EwwNotification,
    path: PathKey,
)
    requires
        all_used(uses),
    ensures
        uses_of(released(uses, notification).0, path) == if uses_of(uses, path) > 0 {
            uses_of(uses, path) - holds(notification, path)
        } else {
            0
        },
        all_used(released(uses, notification).0),
        released(uses, notification).1 == Some(path) <==> held_image(notification) == Some(path)
            && uses_of(uses, path) == 1,
{
}

/// A notification that went takes back what it counted when it came.
pub proof fn law_release_undoes_acquire(
    uses: Map<PathKey, nat>,
    notification: EwwNotification,
)
    requires
        all_used(uses),
    ensures
        released(acquired(uses, notification), notification).0 == uses,
{
    assert(released(acquired(uses, notification), notification).0 =~= uses);
}

pub proof fn lemma_holders_add(a: Seq<EwwNotification>, b: Seq<EwwNotification>, path: PathKey)
    ensures
        holders(a + b, path) == holders(a, path) + holders(b, path),
    decreases b.len(),
{
    if b.len() == 0 {
        assert(a + b =~= a);
    } else {
        assert((a + b).drop_last() =~= a + b.drop_last());
        lemma_holders_add(a, b.drop_last(), path);
    }
}

pub proof fn lemma_holders_one(notification: EwwNotification, path: PathKey)
    ensures
        holders(seq![notification], path) == holds(notification, path),
{
    let one = seq![notification];
    assert(one.drop_last() =~= Seq::empty());
    assert(holders(one.drop_last(), path) == 0);
}

pub proof fn lemma_holders_remove(notifications: Seq<EwwNotification>, i: int, path: PathKey)
    requires
        0 <= i < notifications.len(),
    ensures
        holders(notifications, path) == holders(notifications.remove(i), path) + holds(
            notifications[i],
            path,
        ),
{
    let front = notifications.take(i);
    let back = notifications.skip(i + 1);
    let one = seq![notifications[i]];
    assert(notifications =~= front + one + back);
    assert(notifications.remove(i) =~= front + back);
    lemma_holders_add(front + one, back, path);
    lemma_holders_add(front, one, path);
    lemma_holders_add(front, back, path);
    lemma_holders_one(notifications[i], path);
}

/// The uses after some notifications went are as many fewer as there were uses by them, and a file
/// is given up, once, exactly if those were all its uses.
pub proof fn law_release_counts_all(uses: Map<PathKey, nat>, gone: Seq<EwwNotification>)
    requires
        all_used(uses),
        forall|path: PathKey| #[trigger] holders(gone, path) <= uses_of(uses, path),
    ensures
        all_used(all_released(uses, gone).0),
        forall|path: PathKey| #[trigger]
            uses_of(all_released(uses, gone).0, path) == uses_of(uses, path) - holders(gone, path),
        forall|path: PathKey| #[trigger]
            all_released(uses, gone).1.contains(path) <==> 0 < uses_of(uses, path) == holders(
                gone,
                path,
            ),
        all_released(uses, gone).1.no_duplicates(),
    decreases gone.len(),
{
    if gone.len() > 0 {
        let first = gone.drop_last();
        let last = gone.last();
        assert forall|path: PathKey| #[trigger] holders(first, path) <= uses_of(uses, path) by {
            assert(holders(gone, path) <= uses_of(uses, path));
        }
        law_release_counts_all(uses, first);
        let (before, files) = all_released(uses, first);
        let (after, file) = released(before, last);
        let all_files = all_released(uses, gone).1;
        assert forall|path: PathKey| uses_of(after, path) == uses_of(uses, path) - holders(
            gone,
            path,
        ) by {
            assert(holders(gone, path) <= uses_of(uses, path));
            law_release_counts_one(before, last, path);
        }
        law_release_counts_one(before, last, PathKey { rooted: false, names: Seq::empty() });
        assert forall|path: PathKey| #[trigger]
            all_files.contains(path) <==> 0 < uses_of(uses, path) == holders(gone, path) by {
            law_release_counts_one(before, last, path);
            assert(holders(gone, path) <= uses_of(uses, path));
            if files.contains(path) {
                let i = choose|i: int| 0 <= i < files.len() && files[i] == path;
                assert(all_files[i] == path);
            }
            if file == Some(path) {
                assert(all_files.last() == path);
            }
        }
        if file is Some {
            law_release_counts_one(before, last, file->0);
            assert(!files.contains(file->0));
        }
    }
}

} // verus!

//! Maps from names to values.
use vstd::prelude::*;
use vstd::std_specs::cmp::PartialEqSpec;

verus! {

/// What values are found by.
pub trait Name: Sized {
    /// What is compared of a name.
    type Key;

    /// What is compared of this name.
    spec fn key(&self) -> Self::Key;

    /// Whether two names stand for the same.
    fn same(&self, other: &Self) -> (are_same: bool)
        ensures
            are_same == (self.key() == other.key()),
    ;
}

impl Name for String {
    type Key = Seq<char>;

    open spec fn key(&self) -> Seq<char> {
        self@
    }

    fn same(&self, other: &Self) -> (are_same: bool) {
        *self == *other
    }
}

/// Values by name.
#[derive(Clone, Debug)]
pub struct Index<K, V> {
    entries: Vec<(K, V)>,
}

impl<K: Name, V> View for Index<K, V> {
    type V = Map<K::Key, V>;

    closed spec fn view(&self) -> Map<K::Key, V> {
        Map::new(
            |name: K::Key| exists|i: int| self.names(i, name),
            |name: K::Key| self.entries@[self.index_of(name)].1,
        )
    }
}

/// `listing` holds each entry of `map` once.
pub open spec fn lists<K: Name, V>(listing: Seq<(K, V)>, map: Map<K::Key, V>) -> bool {
    &&& forall|i: int, j: int|
        0 <= i < j < listing.len() ==> (#[trigger] listing[i]).0.key() != (
        #[trigger] listing[j]).0.key()
    &&& forall|i: int|
        0 <= i < listing.len() ==> map.contains_key((#[trigger] listing[i]).0.key())
            && map[listing[i].0.key()] == listing[i].1
    &&& forall|name: K::Key| #[trigger]
        map.contains_key(name) ==> exists|i: int|
            0 <= i < listing.len() && (#[trigger] listing[i]).0.key() == name
}

impl<K: Name, V> Index<K, V> {
    spec fn names(self, i: int, name: K::Key) -> bool {
        0 <= i < self.entries@.len() && self.entries@[i].0.key() == name
    }

    spec fn index_of(self, name: K::Key) -> int {
        choose|i: int| self.names(i, name)
    }

    /// No name occurs twice.
    pub closed spec fn wf(self) -> bool {
        forall|i: int, j: int|
            0 <= i < self.entries@.len() && 0 <= j < self.entries@.len() && (
            #[trigger] self.entries@[i]).0.key() == (#[trigger] self.entries@[j]).0.key() ==> i == j
    }

    /// The entries, each name once.
    pub closed spec fn listing(self) -> Seq<(K, V)> {
        self.entries@
    }

    proof fn lemma_at(self, i: int)
        requires
            self.wf(),
            0 <= i < self.entries@.len(),
        ensures
            self@.contains_key(self.entries@[i].0.key()),
            self@[self.entries@[i].0.key()] == self.entries@[i].1,
            self.index_of(self.entries@[i].0.key()) == i,
    {
        assert(self.names(i, self.entries@[i].0.key()));
        assert(self.names(self.index_of(self.entries@[i].0.key()), self.entries@[i].0.key()));
    }

    proof fn lemma_lists(self)
        requires
            self.wf(),
        ensures
            lists(self.entries@, self@),
    {
        assert forall|i: int| 0 <= i < self.entries@.len() implies self@.contains_key(
            (#[trigger] self.entries@[i]).0.key(),
        ) && self@[self.entries@[i].0.key()] == self.entries@[i].1 by {
            self.lemma_at(i);
        }
        assert forall|name: K::Key| #[trigger] self@.contains_key(name) implies exists|i: int|
            0 <= i < self.entries@.len() && (#[trigger] self.entries@[i]).0.key() == name by {
            let i = choose|i: int| self.names(i, name);
            assert(self.entries@[i].0.key() == name);
        }
    }

    /// `after` has the names of `self`, and at most the value at `i` is another.
    spec fn revalued(self, after: Self, i: int) -> bool {
        after.entries@ == self.entries@.update(i, (self.entries@[i].0, after.entries@[i].1))
    }

    proof fn lemma_revalued(self, i: int)
        requires
            self.wf(),
            0 <= i < self.entries@.len(),
        ensures
            forall|after: Self|
                #![trigger after.wf()]
                #![trigger after@]
                self.revalued(after, i) ==> {
                    &&& after.wf()
                    &&& after@ == self@.insert(self.entries@[i].0.key(), after.entries@[i].1)
                },
    {
        assert forall|after: Self|
            #![trigger after.wf()]
            #![trigger after@]
            self.revalued(after, i) implies {
            &&& after.wf()
            &&& after@ == self@.insert(self.entries@[i].0.key(), after.entries@[i].1)
        } by {
            assert(forall|j: int, name: K::Key| after.names(j, name) == self.names(j, name));
            assert forall|j: int, k: int|
                0 <= j < after.entries@.len() && 0 <= k < after.entries@.len() && (
                #[trigger] after.entries@[j]).0.key() == (
                #[trigger] after.entries@[k]).0.key() implies j == k by {
                assert(self.entries@[j].0.key() == self.entries@[k].0.key());
            }
            assert forall|name: K::Key| #[trigger] after@.contains_key(name) implies after@[name]
                == self@.insert(self.entries@[i].0.key(), after.entries@[i].1)[name] by {
                let j = choose|j: int| after.names(j, name);
                after.lemma_at(j);
                self.lemma_at(j);
            }
            self.lemma_at(i);
            assert(after@ =~= self@.insert(self.entries@[i].0.key(), after.entries@[i].1));
        }
    }

    /// A table with no entry.
    pub fn new() -> (table: Self)
        ensures
            table.wf(),
            table@ == Map::<K::Key, V>::empty(),
            table.listing() == Seq::<(K, V)>::empty(),
    {
        let table = Index { entries: Vec::new() };
        assert(forall|i: int, name: K::Key| !table.names(i, name));
        assert(table@ =~= Map::<K::Key, V>::empty());
        table
    }

    /// The place of a name.
    fn find(&self, name: &K) -> (place: Option<usize>)
        requires
            self.wf(),
        ensures
            match place {
                Some(i) => i < self.entries@.len() && self.entries@[i as int].0.key() == name.key()
                    && self@.contains_key(name.key()) && self@[name.key()] == self.entries@[i
                    as int].1,
                None => !self@.contains_key(name.key()),
            },
    {
        let mut i: usize = 0;
        while i < self.entries.len()
            invariant
                self.wf(),
                i <= self.entries@.len(),
                forall|j: int| 0 <= j < i ==> (#[trigger] self.entries@[j]).0.key() != name.key(),
            decreases self.entries@.len() - i,
        {
            if self.entries[i].0.same(name) {
                proof {
                    self.lemma_at(i as int);
                }
                return Some(i);
            }
            i += 1;
        }
        assert(forall|j: int| !self.names(j, name.key()));
        None
    }

    /// The value of a name.
    pub fn get(&self, name: &K) -> (found: Option<&V>)
        requires
            self.wf(),
        ensures
            match found {
                Some(value) => self@.contains_key(name.key()) && self@[name.key()] == *value,
                None => !self@.contains_key(name.key()),
            },
    {
        match self.find(name) {
            Some(i) => Some(&self.entries[i].1),
            None => None,
        }
    }

    /// The value of a name, to change in place.
    pub fn get_mut(&mut self, name: &K) -> (found: Option<&mut V>)
        requires
            old(self).wf(),
        ensures
            final(self).wf(),
            match found {
                Some(value) => {
                    &&& old(self)@.contains_key(name.key())
                    &&& old(self)@[name.key()] == *value
                    &&& final(self)@ == old(self)@.insert(name.key(), *final(value))
                },
                None => !old(self)@.contains_key(name.key()) && *final(self) == *old(self),
            },
    {
        match self.find(name) {
            Some(i) => {
                proof {
                    self.lemma_revalued(i as int);
                }
                let entry = &mut self.entries[i];
                Some(&mut entry.1)
            },
            None => None,
        }
    }

    /// Adds a name that the table does not have yet.
    fn add(&mut self, name: K, value: V)
        requires
            old(self).wf(),
            !old(self)@.contains_key(name.key()),
        ensures
            final(self).wf(),
            final(self)@ == old(self)@.insert(name.key(), value),
    {
        self.entries.push((name, value));
        proof {
            let before = *old(self);
            let last = before.entries@.len() as int;
            assert(forall|j: int| !before.names(j, name.key()));
            assert forall|j: int, k: int|
                0 <= j < self.entries@.len() && 0 <= k < self.entries@.len() && (
                #[trigger] self.entries@[j]).0.key() == (
                #[trigger] self.entries@[k]).0.key() implies j == k by {
                if j < last && k == last {
                    assert(before.names(j, name.key()));
                }
                if k < last && j == last {
                    assert(before.names(k, name.key()));
                }
                if j < last && k < last {
                    assert(before.entries@[j].0.key() == before.entries@[k].0.key());
                }
            }
            self.lemma_at(last);
            assert forall|other: K::Key|
                self@.contains_key(other) == before@.insert(name.key(), value).contains_key(
                    other,
                ) by {
                if self@.contains_key(other) {
                    let j = choose|j: int| self.names(j, other);
                    if j < last {
                        assert(before.names(j, other));
                    }
                }
                if before@.contains_key(other) {
                    let j = choose|j: int| before.names(j, other);
                    assert(self.names(j, other));
                }
            }
            assert forall|other: K::Key| #[trigger]
                self@.contains_key(other) implies self@[other]
                == before@.insert(name.key(), value)[other] by {
                let j = choose|j: int| self.names(j, other);
                self.lemma_at(j);
                if j < last {
                    before.lemma_at(j);
                }
            }
            assert(self@ =~= before@.insert(name.key(), value));
        }
    }

    /// Gives a name a value, in the place of the one that it had, if any.
    pub fn insert(&mut self, name: K, value: V) -> (previous: Option<V>)
        requires
            old(self).wf(),
        ensures
            final(self).wf(),
            final(self)@ == old(self)@.insert(name.key(), value),
            match previous {
                Some(old_value) => old(self)@.contains_key(name.key()) && old(self)@[name.key()]
                    == old_value,
                None => !old(self)@.contains_key(name.key()),
            },
    {
        match self.get_mut(&name) {
            Some(current) => {
                let mut swapped = value;
                std::mem::swap(current, &mut swapped);
                Some(swapped)
            },
            None => {
                self.add(name, value);
                None
            },
        }
    }

    /// Takes a name and its value out of the table.
    pub fn remove(&mut self, name: &K) -> (removed: Option<V>)
        requires
            old(self).wf(),
        ensures
            final(self).wf(),
            final(self)@ == old(self)@.remove(name.key()),
            match removed {
                Some(value) => old(self)@.contains_key(name.key()) && old(self)@[name.key()]
                    == value,
                None => !old(self)@.contains_key(name.key()) && *final(self) == *old(self),
            },
    {
        match self.find(name) {
            Some(i) => {
                let (_, value) = self.entries.remove(i);
                proof {
                    let before = *old(self);
                    let at = |j: int| if j < i { j } else { j + 1 };
                    assert(forall|j: int|
                        0 <= j < self.entries@.len() ==> #[trigger] self.entries@[j]
                            == before.entries@[at(j)]);
                    assert forall|j: int, k: int|
                        0 <= j < self.entries@.len() && 0 <= k < self.entries@.len() && (
                        #[trigger] self.entries@[j]).0.key() == (
                        #[trigger] self.entries@[k]).0.key() implies j == k by {
                        assert(before.entries@[at(j)].0.key() == before.entries@[at(k)].0.key());
                    }
                    assert forall|other: K::Key|
                        self@.contains_key(other) == before@.remove(name.key()).contains_key(
                            other,
                        ) by {
                        if self@.contains_key(other) {
                            let j = choose|j: int| self.names(j, other);
                            assert(before.names(at(j), other));
                            if other == name.key() {
                                assert(before.entries@[at(j)].0.key()
                                    == before.entries@[i as int].0.key());
                            }
                        }
                        if before@.contains_key(other) && other != name.key() {
                            let j = choose|j: int| before.names(j, other);
                            let k = if j < i { j } else { j - 1 };
                            assert(self.entries@[k] == before.entries@[j]);
                            assert(self.names(k, other));
                        }
                    }
                    assert forall|other: K::Key| #[trigger]
                        self@.contains_key(other) implies self@[other] == before@[other] by {
                        let j = choose|j: int| self.names(j, other);
                        self.lemma_at(j);
                        before.lemma_at(at(j));
                    }
                    assert(self@ =~= before@.remove(name.key()));
                }
                Some(value)
            },
            None => {
                assert(self@ =~= old(self)@.remove(name.key()));
                None
            },
        }
    }

    /// The entries, to walk through.
    pub fn entries(&self) -> (entries: &Vec<(K, V)>)
        requires
            self.wf(),
        ensures
            entries@ == self.listing(),
            lists(entries@, self@),
    {
        proof {
            self.lemma_lists();
        }
        &self.entries
    }
}

/// An entry of `entries` has the name and the value of `entry`.
pub open spec fn has_like<K: Name, V: PartialEq>(entries: Seq<(K, V)>, entry: (K, V)) -> bool {
    exists|j: int|
        0 <= j < entries.len() && (#[trigger] entries[j]).0.key() == entry.0.key()
            && entry.1.eq_spec(&entries[j].1)
}

/// `b` has as many entries as `a`, and each of those.
pub open spec fn same_entries<K: Name, V: PartialEq>(a: Seq<(K, V)>, b: Seq<(K, V)>) -> bool {
    &&& a.len() == b.len()
    &&& forall|i: int| 0 <= i < a.len() ==> has_like(b, #[trigger] a[i])
}

impl<K: Name, V: PartialEq> PartialEq for Index<K, V> {
    fn eq(&self, other: &Self) -> (equal: bool) {
        if self.entries.len() != other.entries.len() {
            return false;
        }
        let mut i: usize = 0;
        while i < self.entries.len()
            invariant
                i <= self.entries@.len(),
                self.entries@.len() == other.entries@.len(),
                V::obeys_eq_spec() ==> forall|k: int|
                    0 <= k < i ==> has_like(other.entries@, #[trigger] self.entries@[k]),
            decreases self.entries@.len() - i,
        {
            let mut found = false;
            let mut j: usize = 0;
            while j < other.entries.len()
                invariant
                    i < self.entries@.len(),
                    j <= other.entries@.len(),
                    V::obeys_eq_spec() && found ==> has_like(
                        other.entries@,
                        self.entries@[i as int],
                    ),
                    V::obeys_eq_spec() && !found ==> forall|k: int|
                        0 <= k < j && (#[trigger] other.entries@[k]).0.key()
                            == self.entries@[i as int].0.key()
                            ==> !self.entries@[i as int].1.eq_spec(&other.entries@[k].1),
                decreases other.entries@.len() - j,
            {
                if self.entries[i].0.same(&other.entries[j].0) && self.entries[i].1
                    == other.entries[j].1 {
                    found = true;
                }
                j += 1;
            }
            if !found {
                assert(V::obeys_eq_spec() ==> !has_like(other.entries@, self.entries@[i as int]));
                return false;
            }
            i += 1;
        }
        true
    }
}

impl<K: Name, V: PartialEq> vstd::std_specs::cmp::PartialEqSpecImpl for Index<K, V> {
    open spec fn obeys_eq_spec() -> bool {
        V::obeys_eq_spec()
    }

    open spec fn eq_spec(&self, other: &Self) -> bool {
        same_entries(self.listing(), other.listing())
    }
}

/// Values by text.
pub type Table<V> = Index<String, V>;

impl<V> Index<String, V> {
    /// A table with the same entries.
    pub fn duplicate(&self) -> (copy: Self) where V: Copy
        requires
            self.wf(),
        ensures
            copy.wf(),
            copy@ == self@,
            copy.listing() == self.listing(),
    {
        let mut entries: Vec<(String, V)> = Vec::new();
        let mut i: usize = 0;
        while i < self.entries.len()
            invariant
                i <= self.entries@.len(),
                entries@ == self.entries@.take(i as int),
            decreases self.entries@.len() - i,
        {
            entries.push((self.entries[i].0.clone(), self.entries[i].1));
            assert(entries@ =~= self.entries@.take(i + 1));
            i += 1;
        }
        let copy = Index { entries };
        proof {
            assert(copy.entries@ =~= self.entries@);
            assert(forall|j: int, name: Seq<char>| copy.names(j, name) == self.names(j, name));
            assert(copy@ =~= self@);
        }
        copy
    }
}

/// Two tables are equal exactly if they have the same names, with equal values.
pub proof fn law_equal_tables_agree<K: Name, V: PartialEq>(a: Index<K, V>, b: Index<K, V>)
    requires
        a.wf(),
        b.wf(),
    ensures
        a.eq_spec(&b) <==> {
            &&& forall|name: K::Key| #[trigger] a@.contains_key(name) <==> b@.contains_key(name)
            &&& forall|name: K::Key| #[trigger]
                a@.contains_key(name) ==> a@[name].eq_spec(&b@[name])
        },
{
    let (x, y) = (a.entries@, b.entries@);
    let p = x.map_values(|entry: (K, V)| entry.0.key());
    let q = y.map_values(|entry: (K, V)| entry.0.key());
    a.lemma_lists();
    b.lemma_lists();
    assert(p.no_duplicates());
    assert(q.no_duplicates());
    p.unique_seq_to_set();
    q.unique_seq_to_set();
    assert forall|name: K::Key| p.contains(name) == #[trigger] a@.contains_key(name) by {
        if p.contains(name) {
            let i = choose|i: int| 0 <= i < p.len() && p[i] == name;
            assert(x[i].0.key() == name);
        }
        if a@.contains_key(name) {
            let i = choose|i: int| 0 <= i < x.len() && (#[trigger] x[i]).0.key() == name;
            assert(p[i] == name);
        }
    }
    assert forall|name: K::Key| q.contains(name) == #[trigger] b@.contains_key(name) by {
        if q.contains(name) {
            let i = choose|i: int| 0 <= i < q.len() && q[i] == name;
            assert(y[i].0.key() == name);
        }
        if b@.contains_key(name) {
            let i = choose|i: int| 0 <= i < y.len() && (#[trigger] y[i]).0.key() == name;
            assert(q[i] == name);
        }
    }
    if a.eq_spec(&b) {
        assert forall|name: K::Key| #[trigger] a@.contains_key(name) implies b@.contains_key(name)
            && a@[name].eq_spec(&b@[name]) by {
            let i = choose|i: int| 0 <= i < x.len() && (#[trigger] x[i]).0.key() == name;
            assert(has_like(y, x[i]));
            let j = choose|j: int|
                0 <= j < y.len() && (#[trigger] y[j]).0.key() == x[i].0.key() && x[i].1.eq_spec(
                    &y[j].1,
                );
            a.lemma_at(i);
            b.lemma_at(j);
        }
        assert(p.to_set().subset_of(q.to_set())) by {
            assert forall|name: K::Key| p.to_set().contains(name) implies q.to_set().contains(
                name,
            ) by {
                assert(p.contains(name));
                assert(a@.contains_key(name));
                assert(b@.contains_key(name));
                assert(q.contains(name));
            }
        }
        vstd::seq_lib::seq_to_set_is_finite(p);
        vstd::seq_lib::seq_to_set_is_finite(q);
        vstd::set_lib::lemma_subset_equality(p.to_set(), q.to_set());
        assert forall|name: K::Key| #[trigger] a@.contains_key(name) <==> b@.contains_key(
            name,
        ) by {
            assert(p.to_set().contains(name) == q.to_set().contains(name));
        }
    }
    if (forall|name: K::Key| #[trigger] a@.contains_key(name) <==> b@.contains_key(name)) && (
    forall|name: K::Key| #[trigger] a@.contains_key(name) ==> a@[name].eq_spec(&b@[name])) {
        assert(p.to_set() =~= q.to_set()) by {
            assert forall|name: K::Key| p.to_set().contains(name) == q.to_set().contains(
                name,
            ) by {
                assert(a@.contains_key(name) == b@.contains_key(name));
            }
        }
        assert forall|i: int| 0 <= i < x.len() implies has_like(y, #[trigger] x[i]) by {
            let name = x[i].0.key();
            a.lemma_at(i);
            assert(b@.contains_key(name));
            let j = choose|j: int| 0 <= j < y.len() && (#[trigger] y[j]).0.key() == name;
            b.lemma_at(j);
            assert(y[j].0.key() == x[i].0.key());
        }
    }
}

/// What a listing of a table says: it has each name of the table, once, with its value.
pub proof fn law_listing_in_detail<K: Name, V>(
    listing: Seq<(K, V)>,
    map: Map<K::Key, V>,
    name: K::Key,
    value: V,
)
    requires
        lists(listing, map),
    ensures
        map.contains_key(name) && map[name] == value <==> exists|i: int|
            0 <= i < listing.len() && (#[trigger] listing[i]).0.key() == name && listing[i].1
                == value,
        forall|i: int, j: int|
            0 <= i < listing.len() && 0 <= j < listing.len() && (#[trigger] listing[i]).0.key() == (
            #[trigger] listing[j]).0.key() ==> i == j,
{
    assert forall|i: int, j: int|
        0 <= i < listing.len() && 0 <= j < listing.len() && (#[trigger] listing[i]).0.key() == (
        #[trigger] listing[j]).0.key() implies i == j by {
        if i < j {
            assert(listing[i].0.key() != listing[j].0.key());
        } else if j < i {
            assert(listing[j].0.key() != listing[i].0.key());
        }
    }
}

} // verus!

//! A map from key types to values, with at most one value for each key type.
use std::any::{Any, TypeId};
use std::marker::PhantomData;
use vstd::prelude::*;

verus! {

/// `std::any::TypeId`, carried as an opaque value.
#[verifier::external_type_specification]
#[verifier::external_body]
pub struct ExTypeId(TypeId);

/// `TypeId::of`. Nothing is claimed of one call; that all calls for one type agree is the claim of
/// `type_id_of`.
pub assume_specification<T: 'static + ?Sized>[ TypeId::of::<T> ]() -> (id: TypeId);

/// `==` on `TypeId`: two ids are equal exactly when they are the same value.
pub assume_specification[ <TypeId as PartialEq>::eq ](a: &TypeId, b: &TypeId) -> (are_equal: bool)
    ensures
        are_equal == (*a == *b),
;

/// The id that `TypeId::of` gives for `T`.
pub open spec fn type_key<T: 'static + ?Sized>() -> TypeId {
    choose|id: TypeId| call_ensures(TypeId::of::<T>, (), id)
}

/// `TypeId::of`: every call for a type gives that type's one id.
#[verifier::external_body]
fn type_id_of<T: 'static>() -> (id: TypeId)
    ensures
        id == type_key::<T>(),
{
    TypeId::of::<T>()
}

/// A value whose type is known only at run time: a `Box<dyn Any + Send + Sync>`.
#[verifier::external_body]
pub struct Erased {
    value: Box<dyn Any + Send + Sync>,
}

/// The id of the type of the value in the box, as `Any::type_id` gives it.
pub uninterp spec fn erased_type(erased: Erased) -> TypeId;

impl Erased {
    /// The box is one that `Erased::new` gives for `value`.
    pub closed spec fn came_from<T: Send + Sync + 'static>(self, value: T) -> bool {
        call_ensures(Erased::new::<T>, (value,), self)
    }

    /// The box came from `value`, and from no other value of that type.
    pub open spec fn holds<T: Send + Sync + 'static>(self, value: T) -> bool {
        &&& self.came_from(value)
        &&& forall|other: T| #[trigger] self.came_from(other) ==> other == value
    }

    /// `Box::new` with the type of the value forgotten: the box keeps the id of that type.
    #[verifier::external_body]
    fn new<T: Send + Sync + 'static>(value: T) -> (erased: Self)
        ensures
            erased_type(erased) == type_key::<T>(),
    {
        Erased { value: Box::new(value) }
    }

    /// `Box<dyn Any>::downcast`: the value in the box, if it is of the type asked for.
    #[verifier::external_body]
    fn downcast<T: Send + Sync + 'static>(self) -> (value: Option<T>)
        ensures
            value is Some <==> erased_type(self) == type_key::<T>(),
            value matches Some(v) ==> self.holds(v),
    {
        let any: Box<dyn Any> = self.value;
        any.downcast::<T>().ok().map(|boxed| *boxed)
    }

    /// `<dyn Any>::downcast_ref`: a reference to the value in the box, if it is of the type asked
    /// for.
    #[verifier::external_body]
    fn downcast_ref<T: Send + Sync + 'static>(&self) -> (value: Option<&T>)
        ensures
            value is Some <==> erased_type(*self) == type_key::<T>(),
            value matches Some(v) ==> self.holds(*v),
    {
        self.value.downcast_ref::<T>()
    }

    /// `<dyn Any>::downcast_mut`: as `downcast_ref`, and what is left in the reference is what the
    /// box holds from then on.
    #[verifier::external_body]
    fn downcast_mut<T: Send + Sync + 'static>(&mut self) -> (value: Option<&mut T>)
        ensures
            value is Some <==> erased_type(*old(self)) == type_key::<T>(),
            value matches Some(v) ==> old(self).holds(*v) && final(self).came_from(*final(v)),
            value is None ==> *final(self) == *old(self),
    {
        self.value.downcast_mut::<T>()
    }
}

/// A type that stands for one entry of a [`TypeMap`], whose value is of the type `Value`.
pub trait TypeMapKey: 'static {
    type Value: Send + Sync + 'static;
}

/// The contents of a [`TypeMap`]: each value under the id of its key type and that of its own type.
pub type Contents = Map<(TypeId, TypeId), Erased>;

/// Where the value of `K` is found.
pub open spec fn key_of<K: TypeMapKey>() -> (TypeId, TypeId) {
    (type_key::<K>(), type_key::<K::Value>())
}

/// `found` is what `contents` holds under `K`.
pub open spec fn reads<K: TypeMapKey>(contents: Contents, found: Option<K::Value>) -> bool {
    match found {
        Some(value) => contents.contains_key(key_of::<K>()) && contents[key_of::<K>()].holds(value),
        None => !contents.contains_key(key_of::<K>()),
    }
}

/// `after` is `before` with `value` under `K`, and nothing else changed.
pub open spec fn writes<K: TypeMapKey>(
    before: Contents,
    after: Contents,
    value: K::Value,
) -> bool {
    &&& after == before.insert(key_of::<K>(), after[key_of::<K>()])
    &&& after[key_of::<K>()].came_from(value)
}

struct Binding {
    id: TypeId,
    value_id: TypeId,
    value: Erased,
}

/// What a [`TypeMap`] holds. It is only changed through the map and its entries.
pub struct Bindings {
    list: Vec<Binding>,
}

impl View for Bindings {
    type V = Contents;

    closed spec fn view(&self) -> Contents {
        Map::new(
            |key: (TypeId, TypeId)| exists|i: int| self.binds(i, key),
            |key: (TypeId, TypeId)| self.list@[self.index_of(key)].value,
        )
    }
}

impl Bindings {
    spec fn binds(self, i: int, key: (TypeId, TypeId)) -> bool {
        &&& 0 <= i < self.list@.len()
        &&& self.list@[i].id == key.0
        &&& self.list@[i].value_id == key.1
    }

    spec fn index_of(self, key: (TypeId, TypeId)) -> int {
        choose|i: int| self.binds(i, key)
    }

    /// Each key is bound once, to a value of the type that the key names.
    pub closed spec fn wf(self) -> bool {
        &&& forall|i: int, j: int, key: (TypeId, TypeId)| #[trigger]
            self.binds(i, key) && #[trigger] self.binds(j, key) ==> i == j
        &&& forall|i: int|
            0 <= i < self.list@.len() ==> erased_type((#[trigger] self.list@[i]).value)
                == self.list@[i].value_id
    }

    /// Only the value of the binding at `i` may have changed, to one of the same type.
    spec fn rebound(self, after: Bindings, i: int) -> bool {
        &&& after.list@ == self.list@.update(
            i,
            Binding { value: after.list@[i].value, ..self.list@[i] },
        )
        &&& erased_type(after.list@[i].value) == self.list@[i].value_id
    }

    /// Putting a value in the place of another of its type is an insertion under that key.
    proof fn lemma_rebound<K: TypeMapKey>(self, i: int)
        requires
            self.wf(),
            self.binds(i, key_of::<K>()),
        ensures
            forall|after: Bindings|
                #![trigger after.wf()]
                #![trigger after@]
                self.rebound(after, i) ==> {
                    &&& after.wf()
                    &&& after@ == self@.insert(key_of::<K>(), after.list@[i].value)
                },
    {
        assert forall|after: Bindings|
            #![trigger after.wf()]
            #![trigger after@]
            self.rebound(after, i) implies {
            &&& after.wf()
            &&& after@ == self@.insert(key_of::<K>(), after.list@[i].value)
        } by {
            assert(forall|j: int, key: (TypeId, TypeId)|
                after.binds(j, key) == self.binds(j, key));
            assert forall|key: (TypeId, TypeId)| #[trigger]
                after@.contains_key(key) implies after@[key] == self@.insert(
                key_of::<K>(),
                after.list@[i].value,
            )[key] by {
                let j = choose|j: int| after.binds(j, key);
                assert(after.index_of(key) == j);
                assert(self.index_of(key) == j);
            }
            assert(after@ =~= self@.insert(key_of::<K>(), after.list@[i].value));
        }
    }

    /// The place of the binding of `K`.
    fn find<K: TypeMapKey>(&self) -> (place: Option<usize>)
        requires
            self.wf(),
        ensures
            match place {
                Some(i) => self.binds(i as int, key_of::<K>()) && self@.contains_key(key_of::<K>())
                    && self@[key_of::<K>()] == self.list@[i as int].value,
                None => !self@.contains_key(key_of::<K>()),
            },
    {
        let id = type_id_of::<K>();
        let value_id = type_id_of::<K::Value>();
        let mut i: usize = 0;
        while i < self.list.len()
            invariant
                self.wf(),
                i <= self.list@.len(),
                (id, value_id) == key_of::<K>(),
                forall|j: int| 0 <= j < i ==> !self.binds(j, key_of::<K>()),
            decreases self.list@.len() - i,
        {
            if self.list[i].id == id && self.list[i].value_id == value_id {
                assert(self.binds(i as int, key_of::<K>()));
                return Some(i);
            }
            i += 1;
        }
        assert(forall|j: int| !self.binds(j, key_of::<K>()));
        None
    }

    /// Binds `K`, which is not bound yet; the binding is the last one.
    fn bind<K: TypeMapKey>(&mut self, value: K::Value)
        requires
            old(self).wf(),
            !old(self)@.contains_key(key_of::<K>()),
        ensures
            final(self).wf(),
            final(self).list@.len() == old(self).list@.len() + 1,
            final(self).binds(old(self).list@.len() as int, key_of::<K>()),
            final(self)@[key_of::<K>()] == final(self).list@.last().value,
            writes::<K>(old(self)@, final(self)@, value),
    {
        let binding = Binding {
            id: type_id_of::<K>(),
            value_id: type_id_of::<K::Value>(),
            value: Erased::new(value),
        };
        self.list.push(binding);
        proof {
            let before = *old(self);
            let after = *self;
            let last = before.list@.len() as int;
            assert(forall|j: int| !before.binds(j, key_of::<K>()));
            assert(after.binds(last, key_of::<K>()));
            assert forall|j: int, key: (TypeId, TypeId)|
                after.binds(j, key) == (before.binds(j, key) || (j == last && key == key_of::<
                    K,
                >())) by {
                if j == last && after.binds(j, key) {
                    assert(key == key_of::<K>());
                }
            }
            assert forall|key: (TypeId, TypeId)| #[trigger]
                after@.contains_key(key) implies after@[key] == before@.insert(
                key_of::<K>(),
                binding.value,
            )[key] by {
                let j = choose|j: int| after.binds(j, key);
                assert(after.index_of(key) == j);
                if key != key_of::<K>() {
                    assert(before.index_of(key) == j);
                }
            }
            assert(after@ =~= before@.insert(key_of::<K>(), binding.value)) by {
                assert forall|key: (TypeId, TypeId)| before@.contains_key(key) implies #[trigger]
                    after@.contains_key(key) by {
                    let j = choose|j: int| before.binds(j, key);
                    assert(after.binds(j, key));
                }
            }
        }
    }

    /// Takes out the binding at `i`.
    fn unbind<K: TypeMapKey>(&mut self, i: usize) -> (value: Erased)
        requires
            old(self).wf(),
            old(self).binds(i as int, key_of::<K>()),
        ensures
            final(self).wf(),
            final(self)@ == old(self)@.remove(key_of::<K>()),
            value == old(self)@[key_of::<K>()],
            erased_type(value) == type_key::<K::Value>(),
    {
        let removed = self.list.remove(i);
        proof {
            let before = *old(self);
            let after = *self;
            let at = |j: int| if j < i { j } else { j + 1 };
            assert(before.index_of(key_of::<K>()) == i);
            assert forall|j: int, key: (TypeId, TypeId)| #[trigger]
                after.binds(j, key) implies before.binds(at(j), key) && at(j) != i by {}
            assert forall|j: int, key: (TypeId, TypeId)| #[trigger]
                before.binds(j, key) && j != i implies after.binds(
                if j < i {
                    j
                } else {
                    j - 1
                },
                key,
            ) by {}
            assert forall|j: int, k: int, key: (TypeId, TypeId)| #[trigger]
                after.binds(j, key) && #[trigger] after.binds(k, key) implies j == k by {
                assert(at(j) == at(k));
            }
            assert forall|j: int| 0 <= j < after.list@.len() implies erased_type(
                (#[trigger] after.list@[j]).value,
            ) == after.list@[j].value_id by {
                assert(after.list@[j] == before.list@[at(j)]);
            }
            assert forall|key: (TypeId, TypeId)| after@.contains_key(key) == before@.remove(
                key_of::<K>(),
            ).contains_key(key) by {
                if after@.contains_key(key) {
                    let j = choose|j: int| after.binds(j, key);
                    assert(before.binds(at(j), key));
                }
                if before@.contains_key(key) && key != key_of::<K>() {
                    let j = choose|j: int| before.binds(j, key);
                    assert(j != i);
                }
            }
            assert forall|key: (TypeId, TypeId)| #[trigger]
                after@.contains_key(key) implies after@[key] == before@[key] by {
                let j = choose|j: int| after.binds(j, key);
                assert(after.index_of(key) == j);
                assert(before.index_of(key) == at(j));
            }
            assert(after@ =~= before@.remove(key_of::<K>()));
        }
        removed.value
    }

    /// A map with no entry.
    fn new() -> (map: Bindings)
        ensures
            map.wf(),
            map@ == Contents::empty(),
    {
        let map = Bindings { list: Vec::new() };
        assert(forall|i: int, key: (TypeId, TypeId)| !map.binds(i, key));
        assert(map@ =~= Contents::empty());
        map
    }

    /// Whether there is a value for `K`.
    fn contains_key<K: TypeMapKey>(&self) -> (found: bool)
        requires
            self.wf(),
        ensures
            found == self@.contains_key(key_of::<K>()),
    {
        self.find::<K>().is_some()
    }

    /// Makes `value` the value of `K` and gives back the one that it had.
    fn insert<K: TypeMapKey>(&mut self, value: K::Value) -> (old_value: Option<K::Value>)
        requires
            old(self).wf(),
        ensures
            final(self).wf(),
            writes::<K>(old(self)@, final(self)@, value),
            reads::<K>(old(self)@, old_value),
    {
        match self.find::<K>() {
            Some(i) => {
                let previous = self.unbind::<K>(i);
                self.bind::<K>(value);
                proof {
                    let key = key_of::<K>();
                    assert(old(self)@.remove(key).insert(key, self@[key]) =~= old(self)@.insert(
                        key,
                        self@[key],
                    ));
                }
                Some(previous.downcast::<K::Value>().unwrap())
            },
            None => {
                self.bind::<K>(value);
                None
            },
        }
    }

    /// The value of `K`.
    fn get<K: TypeMapKey>(&self) -> (found: Option<&K::Value>)
        requires
            self.wf(),
        ensures
            reads::<K>(
                self@,
                match found {
                    Some(value) => Some(*value),
                    None => None,
                },
            ),
    {
        match self.find::<K>() {
            Some(i) => Some(self.list[i].value.downcast_ref::<K::Value>().unwrap()),
            None => None,
        }
    }

    /// The value of `K`, to change in place.
    fn get_mut<K: TypeMapKey>(&mut self) -> (found: Option<&mut K::Value>)
        requires
            old(self).wf(),
        ensures
            final(self).wf(),
            match found {
                Some(value) => reads::<K>(old(self)@, Some(*value)) && writes::<K>(
                    old(self)@,
                    final(self)@,
                    *final(value),
                ),
                None => reads::<K>(old(self)@, None) && *final(self) == *old(self),
            },
    {
        match self.find::<K>() {
            Some(i) => {
                proof {
                    self.lemma_rebound::<K>(i as int);
                }
                Some(self.list[i].value.downcast_mut::<K::Value>().unwrap())
            },
            None => None,
        }
    }

    /// Takes the value of `K` out of the map.
    fn remove<K: TypeMapKey>(&mut self) -> (removed: Option<K::Value>)
        requires
            old(self).wf(),
        ensures
            final(self).wf(),
            final(self)@ == old(self)@.remove(key_of::<K>()),
            reads::<K>(old(self)@, removed),
    {
        match self.find::<K>() {
            Some(i) => Some(self.unbind::<K>(i).downcast::<K::Value>().unwrap()),
            None => {
                assert(self@ =~= old(self)@.remove(key_of::<K>()));
                None
            },
        }
    }
}

/// A map from key types to values.
pub struct TypeMap {
    bindings: Bindings,
}

impl View for TypeMap {
    type V = Contents;

    closed spec fn view(&self) -> Contents {
        self.bindings@
    }
}

impl TypeMap {
    /// Each key is bound once, to a value of the type that the key names.
    pub closed spec fn wf(self) -> bool {
        self.bindings.wf()
    }

    /// A map with no entry.
    pub fn new() -> (map: TypeMap)
        ensures
            map.wf(),
            map@ == Contents::empty(),
    {
        TypeMap { bindings: Bindings::new() }
    }

    /// Whether there is a value for `K`.
    pub fn contains_key<K: TypeMapKey>(&self) -> (found: bool)
        requires
            self.wf(),
        ensures
            found == self@.contains_key(key_of::<K>()),
    {
        self.bindings.contains_key::<K>()
    }

    /// Makes `value` the value of `K` and gives back the one that it had.
    pub fn insert<K: TypeMapKey>(&mut self, value: K::Value) -> (old_value: Option<K::Value>)
        requires
            old(self).wf(),
        ensures
            final(self).wf(),
            writes::<K>(old(self)@, final(self)@, value),
            reads::<K>(old(self)@, old_value),
    {
        self.bindings.insert::<K>(value)
    }

    /// The entry of `K`, to look at and to change in place.
    pub fn entry<K: TypeMapKey>(&mut self) -> (entry: Entry<'_, K>)
        requires
            old(self).wf(),
        ensures
            entry.wf(),
            match entry {
                Entry::Occupied(e) => {
                    &&& e.bindings@ == old(self)@
                    &&& final(self)@ == final(e.bindings)@
                    &&& final(self).wf() == final(e.bindings).wf()
                },
                Entry::Vacant(e) => {
                    &&& e.bindings@ == old(self)@
                    &&& final(self)@ == final(e.bindings)@
                    &&& final(self).wf() == final(e.bindings).wf()
                },
            },
    {
        if self.bindings.contains_key::<K>() {
            Entry::Occupied(OccupiedEntry { bindings: &mut self.bindings, _spooky: PhantomData })
        } else {
            Entry::Vacant(VacantEntry { bindings: &mut self.bindings, _spooky: PhantomData })
        }
    }

    /// The value of `K`.
    pub fn get<K: TypeMapKey>(&self) -> (found: Option<&K::Value>)
        requires
            self.wf(),
        ensures
            reads::<K>(
                self@,
                match found {
                    Some(value) => Some(*value),
                    None => None,
                },
            ),
    {
        self.bindings.get::<K>()
    }

    /// The value of `K`, to change in place.
    pub fn get_mut<K: TypeMapKey>(&mut self) -> (found: Option<&mut K::Value>)
        requires
            old(self).wf(),
        ensures
            final(self).wf(),
            match found {
                Some(value) => reads::<K>(old(self)@, Some(*value)) && writes::<K>(
                    old(self)@,
                    final(self)@,
                    *final(value),
                ),
                None => reads::<K>(old(self)@, None) && *final(self) == *old(self),
            },
    {
        self.bindings.get_mut::<K>()
    }

    /// Takes the value of `K` out of the map.
    pub fn remove<K: TypeMapKey>(&mut self) -> (removed: Option<K::Value>)
        requires
            old(self).wf(),
        ensures
            final(self).wf(),
            final(self)@ == old(self)@.remove(key_of::<K>()),
            reads::<K>(old(self)@, removed),
    {
        self.bindings.remove::<K>()
    }
}

/// Whether two key types are different entries of a map.
pub fn keys_differ<K: TypeMapKey, J: TypeMapKey>() -> (differ: bool)
    ensures
        differ == (key_of::<K>() != key_of::<J>()),
{
    !(type_id_of::<K>() == type_id_of::<J>() && type_id_of::<K::Value>() == type_id_of::<
        J::Value,
    >())
}

/// The place of `K` in a map, with or without a value.
pub enum Entry<'a, K: TypeMapKey> {
    Occupied(OccupiedEntry<'a, K>),
    Vacant(VacantEntry<'a, K>),
}

/// The place of `K` in a map that holds a value for it.
#[non_exhaustive]
pub struct OccupiedEntry<'a, K: TypeMapKey> {
    pub bindings: &'a mut Bindings,
    pub _spooky: PhantomData<K>,
}

/// The place of `K` in a map that holds no value for it.
#[non_exhaustive]
pub struct VacantEntry<'a, K: TypeMapKey> {
    pub bindings: &'a mut Bindings,
    pub _spooky: PhantomData<K>,
}

impl<'a, K: TypeMapKey> Entry<'a, K> {
    /// The variant says whether the map holds a value for `K`.
    pub open spec fn wf(self) -> bool {
        match self {
            Entry::Occupied(entry) => entry.wf(),
            Entry::Vacant(entry) => entry.wf(),
        }
    }

    /// The value of the entry, which is `value` if it had none.
    pub fn or_insert(self, value: K::Value) -> (current: &'a mut K::Value)
        requires
            self.wf(),
        ensures
            match self {
                Entry::Occupied(entry) => {
                    &&& reads::<K>(entry.bindings@, Some(*current))
                    &&& final(entry.bindings).wf()
                    &&& writes::<K>(entry.bindings@, final(entry.bindings)@, *final(current))
                },
                Entry::Vacant(entry) => {
                    &&& *current == value
                    &&& final(entry.bindings).wf()
                    &&& writes::<K>(entry.bindings@, final(entry.bindings)@, *final(current))
                },
            },
    {
        match self {
            Entry::Occupied(entry) => entry.into_mut(),
            Entry::Vacant(entry) => entry.insert(value),
        }
    }

    /// The value of the entry, which is what `f` gives if it had none.
    pub fn or_insert_with<F>(self, f: F) -> (current: &'a mut K::Value) where
        F: FnOnce() -> K::Value,

        requires
            self.wf(),
            self is Vacant ==> f.requires(()),
        ensures
            match self {
                Entry::Occupied(entry) => {
                    &&& reads::<K>(entry.bindings@, Some(*current))
                    &&& final(entry.bindings).wf()
                    &&& writes::<K>(entry.bindings@, final(entry.bindings)@, *final(current))
                },
                Entry::Vacant(entry) => {
                    &&& f.ensures((), *current)
                    &&& final(entry.bindings).wf()
                    &&& writes::<K>(entry.bindings@, final(entry.bindings)@, *final(current))
                },
            },
    {
        match self {
            Entry::Occupied(entry) => entry.into_mut(),
            Entry::Vacant(entry) => entry.insert(f()),
        }
    }

    /// Lets `f` change the value of the entry if it has one.
    pub fn and_modify<F>(self, f: F) -> (entry: Self) where F: FnOnce(&mut K::Value)
        requires
            self.wf(),
            self matches Entry::Occupied(entry) ==> forall|value: &mut K::Value|
                reads::<K>(entry.bindings@, Some(*value)) ==> f.requires((value,)),
        ensures
            entry.wf(),
            match (self, entry) {
                (Entry::Occupied(before), Entry::Occupied(after)) => {
                    &&& *final(after.bindings) == *final(before.bindings)
                    &&& exists|value: &mut K::Value|
                        {
                            &&& #[trigger] f.ensures((value,), ())
                            &&& reads::<K>(before.bindings@, Some(*value))
                            &&& writes::<K>(before.bindings@, after.bindings@, *final(value))
                        }
                },
                (Entry::Vacant(before), Entry::Vacant(after)) => after == before,
                _ => false,
            },
    {
        match self {
            Entry::Occupied(mut entry) => {
                f(entry.get_mut());
                Entry::Occupied(entry)
            },
            Entry::Vacant(entry) => Entry::Vacant(entry),
        }
    }
}

impl<'a, K> Entry<'a, K> where K: TypeMapKey, K::Value: Default {
    /// The value of the entry, which is the default one if it had none.
    pub fn or_default(self) -> (current: &'a mut K::Value)
        requires
            self.wf(),
        ensures
            match self {
                Entry::Occupied(entry) => {
                    &&& reads::<K>(entry.bindings@, Some(*current))
                    &&& final(entry.bindings).wf()
                    &&& writes::<K>(entry.bindings@, final(entry.bindings)@, *final(current))
                },
                Entry::Vacant(entry) => {
                    &&& call_ensures(K::Value::default, (), *current)
                    &&& final(entry.bindings).wf()
                    &&& writes::<K>(entry.bindings@, final(entry.bindings)@, *final(current))
                },
            },
    {
        match self {
            Entry::Occupied(entry) => entry.into_mut(),
            Entry::Vacant(entry) => entry.insert(Default::default()),
        }
    }
}

impl<'a, K: TypeMapKey> OccupiedEntry<'a, K> {
    /// The map holds a value for `K`.
    pub open spec fn wf(self) -> bool {
        self.bindings.wf() && self.bindings@.contains_key(key_of::<K>())
    }

    /// The value of the entry.
    pub fn get(&self) -> (value: &K::Value)
        requires
            self.wf(),
        ensures
            reads::<K>(old(self.bindings)@, Some(*value)),
    {
        self.bindings.get::<K>().unwrap()
    }

    /// The value of the entry, to change it in place.
    pub fn get_mut(&mut self) -> (value: &mut K::Value)
        requires
            old(self).wf(),
        ensures
            reads::<K>(old(self).bindings@, Some(*value)),
            final(self).wf(),
            writes::<K>(old(self).bindings@, final(self).bindings@, *final(value)),
            *final(final(self).bindings) == *final(old(self).bindings),
    {
        self.bindings.get_mut::<K>().unwrap()
    }

    /// The value of the entry, to change it in place for as long as the map is borrowed.
    pub fn into_mut(self) -> (value: &'a mut K::Value)
        requires
            self.wf(),
        ensures
            reads::<K>(old(self.bindings)@, Some(*value)),
            final(self.bindings).wf(),
            writes::<K>(old(self.bindings)@, final(self.bindings)@, *final(value)),
    {
        self.bindings.get_mut::<K>().unwrap()
    }

    /// Makes `value` the value of the entry and gives back the one that it had.
    pub fn insert(&mut self, value: K::Value) -> (old_value: K::Value)
        requires
            old(self).wf(),
        ensures
            reads::<K>(old(self).bindings@, Some(old_value)),
            final(self).wf(),
            writes::<K>(old(self).bindings@, final(self).bindings@, value),
            *final(final(self).bindings) == *final(old(self).bindings),
    {
        self.bindings.insert::<K>(value).unwrap()
    }

    /// Whether the values of `K` are of the type `()`.
    pub fn is_unit(&self) -> (unit: bool)
        ensures
            unit == (type_key::<K::Value>() == type_key::<()>()),
    {
        type_id_of::<K::Value>() == type_id_of::<()>()
    }

    /// Drops the entry from the map. It gives the value back as a `()`, so the values of `K` have
    /// to be of that type.
    pub fn remove(self)
        requires
            self.wf(),
            type_key::<K::Value>() == type_key::<()>(),
        ensures
            final(self.bindings).wf(),
            final(self.bindings)@ == old(self.bindings)@.remove(key_of::<K>()),
    {
        let i = self.bindings.find::<K>().unwrap();
        self.bindings.unbind::<K>(i).downcast::<()>().unwrap()
    }
}

impl<'a, K: TypeMapKey> VacantEntry<'a, K> {
    /// The map holds no value for `K`.
    pub open spec fn wf(self) -> bool {
        self.bindings.wf() && !self.bindings@.contains_key(key_of::<K>())
    }

    /// Gives `K` a value, to be changed in place for as long as the map is borrowed.
    pub fn insert(self, value: K::Value) -> (inserted: &'a mut K::Value)
        requires
            self.wf(),
        ensures
            *inserted == value,
            final(self.bindings).wf(),
            writes::<K>(old(self.bindings)@, final(self.bindings)@, *final(inserted)),
    {
        let map = self.bindings;
        let ghost before = map@;
        map.bind::<K>(value);
        proof {
            let key = key_of::<K>();
            assert forall|other: Erased| #[trigger] map@.insert(key, other) == before.insert(
                key,
                other,
            ) by {
                assert(map@.insert(key, other) =~= before.insert(key, other));
            }
        }
        map.get_mut::<K>().unwrap()
    }
}

/// The value of an occupied entry is of the type `()`, so that it can be taken as one, exactly
/// where the values of `K` are of that type.
pub proof fn law_unit_entries_hold_units<K: TypeMapKey>(map: TypeMap)
    requires
        map.wf(),
        map@.contains_key(key_of::<K>()),
    ensures
        erased_type(map@[key_of::<K>()]) == type_key::<()>() <==> type_key::<K::Value>()
            == type_key::<()>(),
{
    let bindings = map.bindings;
    let i = choose|i: int| bindings.binds(i, key_of::<K>());
    assert(bindings.index_of(key_of::<K>()) == i);
    assert(erased_type(bindings.list@[i].value) == bindings.list@[i].value_id);
}

/// A read gives back what was last written under its key, and never fails after a write.
pub proof fn law_read_after_write<K: TypeMapKey>(
    before: Contents,
    after: Contents,
    value: K::Value,
    found: Option<K::Value>,
)
    requires
        writes::<K>(before, after, value),
        reads::<K>(after, found),
    ensures
        found == Some(value),
{
    assert(after[key_of::<K>()].came_from(value));
}

/// A write under one key changes what is read under no other.
pub proof fn law_write_leaves_others<K: TypeMapKey, J: TypeMapKey>(
    before: Contents,
    after: Contents,
    value: K::Value,
    found: Option<J::Value>,
)
    requires
        writes::<K>(before, after, value),
        key_of::<K>() != key_of::<J>(),
    ensures
        reads::<J>(after, found) <==> reads::<J>(before, found),
{
}

/// After a removal there is nothing to read under the key, and under the others what there was.
pub proof fn law_read_after_removal<K: TypeMapKey, J: TypeMapKey>(
    before: Contents,
    found: Option<K::Value>,
    other: Option<J::Value>,
)
    requires
        key_of::<K>() != key_of::<J>(),
    ensures
        reads::<K>(before.remove(key_of::<K>()), found) <==> found is None,
        reads::<J>(before.remove(key_of::<K>()), other) <==> reads::<J>(before, other),
{
}

/// A removal takes back a write under a key that had no value.
pub proof fn law_removal_undoes_write<K: TypeMapKey>(
    before: Contents,
    after: Contents,
    value: K::Value,
)
    requires
        writes::<K>(before, after, value),
        !before.contains_key(key_of::<K>()),
    ensures
        after.remove(key_of::<K>()) == before,
{
    assert(after.remove(key_of::<K>()) =~= before);
}

/// There is one value to read under a key.
pub proof fn law_reads_agree<K: TypeMapKey>(
    contents: Contents,
    one: Option<K::Value>,
    two: Option<K::Value>,
)
    requires
        reads::<K>(contents, one),
        reads::<K>(contents, two),
    ensures
        one == two,
{
}

} // verus!

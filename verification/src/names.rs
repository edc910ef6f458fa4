//! Maps keyed by name that keep the order in which names were first inserted.
use vstd::prelude::*;

verus! {

/// A map from names to values. No name occurs twice, and a name keeps the
/// place at which it was first inserted, so walking the map is deterministic.
#[derive(Debug)]
pub struct NameMap<V> {
    names: Vec<String>,
    values: Vec<V>,
}

impl<V> NameMap<V> {
    #[verifier::type_invariant]
    spec fn well_formed(self) -> bool {
        &&& self.names.len() == self.values.len()
        &&& forall|i: int, j: int|
            0 <= i < j < self.names.len() ==> self.names[i]@ != self.names[j]@
    }

    /// The names, in insertion order.
    pub closed spec fn names(&self) -> Seq<Seq<char>> {
        Seq::new(self.names.len() as nat, |i: int| self.names[i]@)
    }

    /// The values, each at the place of its name.
    pub closed spec fn values(&self) -> Seq<V> {
        self.values@
    }

    /// What every map satisfies: one value per name, and no name twice.
    pub open spec fn is_map(&self) -> bool {
        self.names().len() == self.values().len() && self.names().no_duplicates()
    }

    pub open spec fn contains(&self, name: Seq<char>) -> bool {
        self.names().contains(name)
    }

    /// The place of `name`, if the map holds it.
    pub open spec fn index_of(&self, name: Seq<char>) -> Option<int> {
        if self.names().contains(name) {
            Some(self.names().index_of(name))
        } else {
            None
        }
    }

    /// The value stored under `name`, if there is one.
    pub open spec fn value_of(&self, name: Seq<char>) -> Option<V> {
        match self.index_of(name) {
            Some(i) => Some(self.values()[i]),
            None => None,
        }
    }

    /// In a map, a name found at a place has that place as its index.
    pub proof fn lemma_index_of(&self, name: Seq<char>, i: int)
        requires
            self.is_map(),
            0 <= i < self.names().len(),
            self.names()[i] == name,
        ensures
            self.index_of(name) == Some(i),
    {
        assert(self.names().contains(name));
        let k = self.names().index_of(name);
        assert(self.names()[k] == name);
    }

    pub fn new() -> (map: NameMap<V>)
        ensures
            map.names() == Seq::<Seq<char>>::empty(),
            map.values() == Seq::<V>::empty(),
            map.is_map(),
    {
        let map = NameMap { names: Vec::new(), values: Vec::new() };
        assert(map.names() =~= Seq::<Seq<char>>::empty());
        map
    }

    pub fn len(&self) -> (n: usize)
        ensures
            n == self.names().len(),
            n == self.values().len(),
            self.is_map(),
    {
        proof {
            use_type_invariant(self);
        }
        self.names.len()
    }

    /// The name at place `i`.
    pub fn name(&self, i: usize) -> (name: &String)
        requires
            i < self.names().len(),
        ensures
            name@ == self.names()[i as int],
            self.is_map(),
    {
        proof {
            use_type_invariant(self);
        }
        &self.names[i]
    }

    /// The value at place `i`.
    pub fn value(&self, i: usize) -> (value: &V)
        requires
            i < self.values().len(),
        ensures
            *value == self.values()[i as int],
            self.is_map(),
    {
        proof {
            use_type_invariant(self);
        }
        &self.values[i]
    }

    /// The value at place `i`, to be changed in place.
    pub fn value_mut(&mut self, i: usize) -> (value: &mut V)
        requires
            i < old(self).values().len(),
        ensures
            *value == old(self).values()[i as int],
            final(self).names() == old(self).names(),
            final(self).values() == old(self).values().update(i as int, *final(value)),
            old(self).is_map(),
    {
        proof {
            use_type_invariant(&*self);
        }
        &mut self.values[i]
    }

    /// The place of `name`, if the map holds it.
    pub fn find(&self, name: &str) -> (found: Option<usize>)
        ensures
            self.is_map(),
            match found {
                Some(i) => self.index_of(name@) == Some(i as int) && i < self.names().len()
                    && self.names()[i as int] == name@,
                None => self.index_of(name@) is None,
            },
    {
        proof {
            use_type_invariant(self);
        }
        assert(self.names().no_duplicates());
        let wanted = name.to_owned();
        let mut i: usize = 0;
        while i < self.names.len()
            invariant
                i <= self.names.len(),
                self.names.len() == self.values.len(),
                self.names().len() == self.names.len(),
                forall|j: int| 0 <= j < self.names.len() ==> self.names()[j] == self.names[j]@,
                self.names().no_duplicates(),
                wanted@ == name@,
                forall|k: int| 0 <= k < i ==> self.names[k]@ != name@,
            decreases self.names.len() - i,
        {
            if self.names[i] == wanted {
                assert(self.names()[i as int] == name@);
                assert(self.names().contains(name@));
                assert(self.names().index_of(name@) == i as int);
                return Some(i);
            }
            i += 1;
        }
        None
    }

    /// The value stored under `name`.
    pub fn get(&self, name: &str) -> (found: Option<&V>)
        ensures
            self.is_map(),
            match found {
                Some(value) => self.value_of(name@) == Some(*value),
                None => self.value_of(name@) is None,
            },
    {
        match self.find(name) {
            Some(i) => {
                proof {
                    use_type_invariant(self);
                }
                Some(&self.values[i])
            },
            None => None,
        }
    }

    /// The value stored under `name`, to be changed in place.
    pub fn get_mut(&mut self, name: &str) -> (found: Option<&mut V>)
        ensures
            old(self).is_map(),
            final(self).names() == old(self).names(),
            match found {
                Some(value) => {
                    &&& old(self).index_of(name@) is Some
                    &&& *value == old(self).values()[old(self).index_of(name@).unwrap()]
                    &&& final(self).values() == old(self).values().update(
                        old(self).index_of(name@).unwrap(),
                        *final(value),
                    )
                },
                None => old(self).index_of(name@) is None && final(self).values() == old(
                    self,
                ).values(),
            },
    {
        proof {
            use_type_invariant(&*self);
        }
        match self.find(name) {
            Some(i) => Some(&mut self.values[i]),
            None => None,
        }
    }

    /// Stores `value` under `name`. A name that is already there keeps its
    /// place and gets the new value; a new name goes to the end.
    pub fn insert(&mut self, name: String, value: V)
        ensures
            old(self).is_map(),
            final(self).is_map(),
            match old(self).index_of(name@) {
                Some(i) => {
                    &&& final(self).names() == old(self).names()
                    &&& final(self).values() == old(self).values().update(i, value)
                },
                None => {
                    &&& final(self).names() == old(self).names().push(name@)
                    &&& final(self).values() == old(self).values().push(value)
                },
            },
    {
        proof {
            use_type_invariant(&*self);
        }
        match self.find(name.as_str()) {
            Some(i) => {
                self.values[i] = value;
            },
            None => {
                let ghost before = self.names();
                let mut taken = NameMap { names: Vec::new(), values: Vec::new() };
                core::mem::swap(self, &mut taken);
                let NameMap { names, values } = taken;
                let mut names = names;
                let mut values = values;
                names.push(name);
                values.push(value);
                assert forall|i: int, j: int| 0 <= i < j < names.len() implies names[i]@
                    != names[j]@ by {
                    assert(before[i] == names[i]@);
                    if j == names.len() - 1 {
                        assert(before.contains(names[i]@));
                    } else {
                        assert(before[j] == names[j]@);
                    }
                }
                *self = NameMap { names, values };
                assert(self.names() =~= before.push(name@));
            },
        }
    }

    /// Takes `name` and its value out of the map; the names behind it move up.
    pub fn remove(&mut self, name: &str) -> (removed: Option<V>)
        ensures
            final(self).is_map(),
            match old(self).index_of(name@) {
                Some(i) => {
                    &&& removed == Some(old(self).values()[i])
                    &&& final(self).names() == old(self).names().remove(i)
                    &&& final(self).values() == old(self).values().remove(i)
                },
                None => {
                    &&& removed is None
                    &&& final(self).names() == old(self).names()
                    &&& final(self).values() == old(self).values()
                },
            },
    {
        proof {
            use_type_invariant(&*self);
        }
        match self.find(name) {
            Some(i) => {
                let ghost before = self.names();
                let mut taken = NameMap { names: Vec::new(), values: Vec::new() };
                core::mem::swap(self, &mut taken);
                let NameMap { names, values } = taken;
                let mut names = names;
                let mut values = values;
                names.remove(i);
                let value = values.remove(i);
                assert forall|a: int, b: int| 0 <= a < b < names.len() implies names[a]@
                    != names[b]@ by {
                    let a0 = if a < i { a } else { a + 1 };
                    let b0 = if b < i { b } else { b + 1 };
                    assert(before[a0] == names[a]@);
                    assert(before[b0] == names[b]@);
                }
                *self = NameMap { names, values };
                assert(self.names() =~= before.remove(i as int));
                Some(value)
            },
            None => None,
        }
    }
}

} // verus!

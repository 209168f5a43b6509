use vstd::prelude::*;

verus! {

/// One binding of a name to a slot index.
pub struct NameEntry {
    pub name: String,
    pub index: usize,
}

/// A map from names to slot indices.
///
/// Bindings are kept in the order they were made; a name maps to the index
/// of its most recent binding, so inserting a name again replaces its value.
pub struct NameMap {
    entries: Vec<NameEntry>,
}

/// The value bound to `name` in `entries`, looking from the newest binding.
pub open spec fn lookup(entries: Seq<NameEntry>, name: Seq<char>) -> Option<usize>
    decreases entries.len(),
{
    if entries.len() == 0 {
        None
    } else if entries.last().name@ == name {
        Some(entries.last().index)
    } else {
        lookup(entries.drop_last(), name)
    }
}

impl NameMap {
    pub closed spec fn entries(&self) -> Seq<NameEntry> {
        self.entries@
    }

    /// The map that the bindings describe.
    pub open spec fn view(&self) -> Map<Seq<char>, usize> {
        Map::new(
            |name: Seq<char>| lookup(self.entries(), name) is Some,
            |name: Seq<char>| lookup(self.entries(), name)->0,
        )
    }

    pub fn new() -> (map: Self)
        ensures
            map@ == Map::<Seq<char>, usize>::empty(),
    {
        let map = NameMap { entries: Vec::new() };
        assert(map@ =~= Map::<Seq<char>, usize>::empty());
        map
    }

    /// Binds `name` to `index`, replacing an earlier binding of the name.
    pub fn insert(&mut self, name: String, index: usize)
        ensures
            final(self)@ == old(self)@.insert(name@, index),
    {
        let ghost n = name@;
        self.entries.push(NameEntry { name, index });
        proof {
            assert(self.entries@.drop_last() =~= old(self).entries@);
            assert forall|k: Seq<char>| k != n implies lookup(self.entries@, k) == lookup(
                old(self).entries@,
                k,
            ) by {}
            assert(final(self)@ =~= old(self)@.insert(n, index));
        }
    }

    /// The index bound to `name`, if any.
    pub fn get(&self, name: &str) -> (r: Option<usize>)
        ensures
            r == (if self@.contains_key(name@) {
                Some(self@[name@])
            } else {
                None::<usize>
            }),
    {
        let key = name.to_owned();
        let mut i = self.entries.len();
        assert(self.entries@.take(i as int) =~= self.entries@);
        while i > 0
            invariant
                i <= self.entries@.len(),
                key@ == name@,
                lookup(self.entries@, name@) == lookup(self.entries@.take(i as int), name@),
            decreases i,
        {
            let ghost prefix = self.entries@.take(i as int);
            assert(prefix.drop_last() =~= self.entries@.take(i - 1));
            assert(prefix.last() == self.entries@[i - 1]);
            if self.entries[i - 1].name == key {
                return Some(self.entries[i - 1].index);
            }
            i = i - 1;
        }
        assert(self.entries@.take(0) =~= Seq::<NameEntry>::empty());
        None
    }
}

/// Looking a name up after binding it gives the index it was bound to last,
/// and binding a name leaves the other names as they were.
pub proof fn lemma_get_after_insert(before: NameMap, after: NameMap, name: Seq<char>, index: usize, other: Seq<char>)
    requires
        after@ == before@.insert(name, index),
    ensures
        after@.contains_key(name),
        after@[name] == index,
        other != name ==> after@.contains_key(other) == before@.contains_key(other),
        other != name && before@.contains_key(other) ==> after@[other] == before@[other],
{
}

} // verus!

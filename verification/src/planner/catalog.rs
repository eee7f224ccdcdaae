//! Registry of node-label and relationship-type names, each given a dense
//! numeric id in order of first registration.

use vstd::prelude::*;

verus! {

/// Position of the first occurrence of `name` in `names`, if any.
pub open spec fn index_of(names: Seq<Seq<char>>, name: Seq<char>) -> Option<int>
    decreases names.len(),
{
    if names.len() == 0 {
        None
    } else {
        match index_of(names.drop_last(), name) {
            Some(i) => Some(i),
            None => if names.last() == name {
                Some(names.len() - 1)
            } else {
                None
            },
        }
    }
}

proof fn lemma_index_of(names: Seq<Seq<char>>, name: Seq<char>)
    ensures
        index_of(names, name) matches Some(i) ==> 0 <= i < names.len() && names[i] == name
            && forall|k: int| 0 <= k < i ==> names[k] != name,
        index_of(names, name) is None ==> forall|k: int| 0 <= k < names.len() ==> names[k] != name,
    decreases names.len(),
{
    if names.len() > 0 {
        let d = names.drop_last();
        lemma_index_of(d, name);
        assert(forall|k: int| 0 <= k < d.len() ==> d[k] == names[k]);
    }
}

proof fn lemma_index_of_push(names: Seq<Seq<char>>, name: Seq<char>, other: Seq<char>)
    ensures
        index_of(names.push(other), name) == match index_of(names, name) {
            Some(i) => Some(i),
            None => if other == name {
                Some(names.len() as int)
            } else {
                None
            },
        },
{
    assert(names.push(other).drop_last() =~= names);
}

/// Once registered, a name keeps its id: looking up or registering any name
/// leaves the ids of the names already there unchanged, and looking up or
/// registering the same name again changes nothing.
pub proof fn lemma_ids_stable(names: Seq<Seq<char>>, name: Seq<char>, other: Seq<char>)
    requires
        index_of(names, name) is Some,
    ensures
        index_of(
            match index_of(names, other) {
                Some(_) => names,
                None => names.push(other),
            },
            name,
        ) == index_of(names, name),
        index_of(names, name) matches Some(i) && names[i] == name,
{
    lemma_index_of(names, name);
    lemma_index_of_push(names, name, other);
}

/// Names of node labels and relationship types, with ids given in order of
/// first registration.
pub struct Catalog {
    labels: Vec<String>,
    rel_types: Vec<String>,
}

impl Catalog {
    /// Registered label names; a label's id is its position.
    pub closed spec fn label_names(&self) -> Seq<Seq<char>> {
        self.labels@.map_values(|s: String| s@)
    }

    /// Registered relationship-type names; a type's id is its position.
    pub closed spec fn rel_type_names(&self) -> Seq<Seq<char>> {
        self.rel_types@.map_values(|s: String| s@)
    }

    /// An empty catalog.
    pub fn new() -> (c: Self)
        ensures
            c.label_names() == Seq::<Seq<char>>::empty(),
            c.rel_type_names() == Seq::<Seq<char>>::empty(),
    {
        let c = Catalog { labels: Vec::new(), rel_types: Vec::new() };
        assert(c.label_names() =~= Seq::<Seq<char>>::empty());
        assert(c.rel_type_names() =~= Seq::<Seq<char>>::empty());
        c
    }

    /// The id of label `name`, registering it when new.
    pub fn get_or_create_label(&mut self, name: &str) -> (id: u32)
        requires
            old(self).label_names().len() < u32::MAX,
        ensures
            final(self).rel_type_names() == old(self).rel_type_names(),
            final(self).label_names() == match index_of(old(self).label_names(), name@) {
                Some(_) => old(self).label_names(),
                None => old(self).label_names().push(name@),
            },
            index_of(final(self).label_names(), name@) == Some(id as int),
    {
        find_or_push(&mut self.labels, name)
    }

    /// The id of relationship type `name`, registering it when new.
    pub fn get_or_create_rel_type(&mut self, name: &str) -> (id: u32)
        requires
            old(self).rel_type_names().len() < u32::MAX,
        ensures
            final(self).label_names() == old(self).label_names(),
            final(self).rel_type_names() == match index_of(old(self).rel_type_names(), name@) {
                Some(_) => old(self).rel_type_names(),
                None => old(self).rel_type_names().push(name@),
            },
            index_of(final(self).rel_type_names(), name@) == Some(id as int),
    {
        find_or_push(&mut self.rel_types, name)
    }

    /// The id of label `name`, if registered.
    pub fn label_id(&self, name: &str) -> (r: Option<u32>)
        ensures
            match index_of(self.label_names(), name@) {
                Some(i) => r == Some(i as u32),
                None => r is None,
            },
    {
        find(&self.labels, name)
    }

    /// The id of relationship type `name`, if registered.
    pub fn rel_type_id(&self, name: &str) -> (r: Option<u32>)
        ensures
            match index_of(self.rel_type_names(), name@) {
                Some(i) => r == Some(i as u32),
                None => r is None,
            },
    {
        find(&self.rel_types, name)
    }

    /// Number of registered labels.
    pub fn label_count(&self) -> (n: usize)
        ensures
            n == self.label_names().len(),
    {
        self.labels.len()
    }

    /// Number of registered relationship types.
    pub fn rel_type_count(&self) -> (n: usize)
        ensures
            n == self.rel_type_names().len(),
    {
        self.rel_types.len()
    }
}

impl Default for Catalog {
    fn default() -> (c: Self)
        ensures
            c.label_names() == Seq::<Seq<char>>::empty(),
            c.rel_type_names() == Seq::<Seq<char>>::empty(),
    {
        Catalog::new()
    }
}

/// Position of `name` in `v`, if present.
fn find(v: &Vec<String>, name: &str) -> (r: Option<u32>)
    ensures
        match index_of(v@.map_values(|s: String| s@), name@) {
            Some(i) => r == Some(i as u32),
            None => r is None,
        },
{
    let ghost names = v@.map_values(|s: String| s@);
    proof {
        lemma_index_of(names, name@);
    }
    let mut i: usize = 0;
    while i < v.len()
        invariant
            i <= v.len(),
            names == v@.map_values(|s: String| s@),
            forall|k: int| 0 <= k < i ==> names[k] != name@,
        decreases v.len() - i,
    {
        if crate::text::str_equals(v[i].as_str(), name) {
            proof {
                lemma_index_of(names, name@);
                lemma_index_of_first(names, name@, i as int);
            }
            return Some(i as u32);
        }
        i = i + 1;
    }
    proof {
        lemma_index_of(names, name@);
    }
    None
}

proof fn lemma_index_of_first(names: Seq<Seq<char>>, name: Seq<char>, i: int)
    requires
        0 <= i < names.len(),
        names[i] == name,
        forall|k: int| 0 <= k < i ==> names[k] != name,
    ensures
        index_of(names, name) == Some(i),
{
    lemma_index_of(names, name);
    if let Some(j) = index_of(names, name) {
        assert(!(j < i));
        assert(!(i < j));
    }
}

/// Position of `name` in `v`, appending it first when absent.
fn find_or_push(v: &mut Vec<String>, name: &str) -> (r: u32)
    requires
        old(v)@.len() < u32::MAX,
    ensures
        final(v)@.map_values(|s: String| s@) == match index_of(
            old(v)@.map_values(|s: String| s@),
            name@,
        ) {
            Some(_) => old(v)@.map_values(|s: String| s@),
            None => old(v)@.map_values(|s: String| s@).push(name@),
        },
        index_of(final(v)@.map_values(|s: String| s@), name@) == Some(r as int),
{
    proof {
        lemma_index_of(old(v)@.map_values(|s: String| s@), name@);
    }
    match find(v, name) {
        Some(i) => i,
        None => {
            let n = v.len();
            let ghost before = v@;
            v.push(crate::text::owned(name));
            proof {
                assert(v@.drop_last() =~= before);
                assert(v@.map_values(|s: String| s@) =~= before.map_values(|s: String| s@).push(
                    name@,
                ));
                lemma_index_of_push(before.map_values(|s: String| s@), name@, name@);
            }
            n as u32
        },
    }
}

} // verus!

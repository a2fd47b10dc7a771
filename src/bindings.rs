//! Variable bindings: captured byte strings by name, for one sequence.
use vstd::prelude::*;
use crate::text::chars_of;

verus! {

/// The value bound to `name` by the latest entry that names it.
pub open spec fn lookup(entries: Seq<(Seq<char>, Seq<u8>)>, name: Seq<char>) -> Option<Seq<u8>>
    decreases entries.len(),
{
    if entries.len() == 0 {
        None
    } else if entries.last().0 == name {
        Some(entries.last().1)
    } else {
        lookup(entries.drop_last(), name)
    }
}

/// Names bound to captured bytes. A later binding of a name replaces the
/// earlier one.
#[derive(Debug)]
pub struct Bindings {
    entries: Vec<(Vec<char>, Vec<u8>)>,
}

impl Bindings {
    pub closed spec fn entries_view(self) -> Seq<(Seq<char>, Seq<u8>)> {
        self.entries@.map_values(|e: (Vec<char>, Vec<u8>)| (e.0@, e.1@))
    }

    /// The bindings as a map from name to bytes.
    pub closed spec fn view(self) -> Map<Seq<char>, Seq<u8>> {
        Map::new(
            |k: Seq<char>| lookup(self.entries_view(), k) is Some,
            |k: Seq<char>| lookup(self.entries_view(), k)->0,
        )
    }

    pub fn new() -> (r: Self)
        ensures
            r.view() == Map::<Seq<char>, Seq<u8>>::empty(),
    {
        let r = Bindings { entries: Vec::new() };
        assert(r.view() =~= Map::<Seq<char>, Seq<u8>>::empty());
        r
    }

    /// Binds `name` to `value`, replacing any earlier binding of `name`.
    pub fn insert_chars(&mut self, name: Vec<char>, value: Vec<u8>)
        ensures
            final(self).view() == old(self).view().insert(name@, value@),
    {
        let ghost n = name@;
        let ghost v = value@;
        self.entries.push((name, value));
        proof {
            assert(self.entries_view().drop_last() =~= old(self).entries_view());
            assert(self.entries_view().last() == (n, v));
            assert(self.view() =~= old(self).view().insert(n, v));
        }
    }

    /// The bytes bound to `name`, if any.
    pub fn get_chars(&self, name: &Vec<char>) -> (r: Option<Vec<u8>>)
        ensures
            r is Some <==> self.view().contains_key(name@),
            r is Some ==> r->0@ == self.view()[name@],
    {
        let ghost es = self.entries_view();
        let mut i = self.entries.len();
        assert(es.subrange(0, i as int) =~= es);
        while i > 0
            invariant
                es == self.entries_view(),
                0 <= i <= self.entries@.len(),
                lookup(es, name@) == lookup(es.subrange(0, i as int), name@),
            decreases i,
        {
            let ghost pre = es.subrange(0, i as int);
            assert(pre.drop_last() =~= es.subrange(0, i - 1));
            assert(pre.last() == es[i - 1]);
            if same_chars(&self.entries[i - 1].0, name) {
                return Some(self.entries[i - 1].1.clone());
            }
            i = i - 1;
        }
        None
    }

    /// Binds `name` to `value`, replacing any earlier binding of `name`.
    pub fn insert(&mut self, name: &str, value: Vec<u8>)
        ensures
            final(self).view() == old(self).view().insert(name@, value@),
    {
        self.insert_chars(chars_of(name), value);
    }

    /// The bytes bound to `name`, if any.
    pub fn get(&self, name: &str) -> (r: Option<Vec<u8>>)
        ensures
            r is Some <==> self.view().contains_key(name@),
            r is Some ==> r->0@ == self.view()[name@],
    {
        self.get_chars(&chars_of(name))
    }
}

/// Whether two character strings are equal.
pub fn same_chars(a: &Vec<char>, b: &Vec<char>) -> (r: bool)
    ensures
        r == (a@ == b@),
{
    if a.len() != b.len() {
        return false;
    }
    let mut i: usize = 0;
    while i < a.len()
        invariant
            a@.len() == b@.len(),
            0 <= i <= a@.len(),
            forall|j: int| 0 <= j < i ==> a@[j] == b@[j],
        decreases a@.len() - i,
    {
        if a[i] != b[i] {
            return false;
        }
        i = i + 1;
    }
    assert(a@ =~= b@);
    true
}

} // verus!

//! A small verified map keyed by value names (`String`), used for the
//! per-output-name indexes the IR builder maintains: declared value shapes,
//! operator definitions by output name, and already-built nodes by output
//! name.
//!
//! The map is an association list whose newest entry for a key shadows older
//! ones, so `insert` is "last wins", exactly like the hash maps it stands in
//! for.
use vstd::prelude::*;

verus! {

/// The abstract contents of an entry list: the first entry for a key wins,
/// so an entry inserted at the front shadows all older ones.
pub open spec fn entries_map<V>(entries: Seq<(String, V)>) -> Map<Seq<char>, V>
    decreases entries.len(),
{
    if entries.len() == 0 {
        Map::empty()
    } else {
        entries_map(entries.drop_first()).insert(entries.first().0@, entries.first().1)
    }
}

/// A map from value names to `V`, with "last inserted wins" semantics.
pub struct NameMap<V> {
    entries: Vec<(String, V)>,
}

impl<V> NameMap<V> {
    /// The abstract map this value represents.
    pub closed spec fn view(&self) -> Map<Seq<char>, V> {
        entries_map(self.entries@)
    }

    pub fn new() -> (r: NameMap<V>)
        ensures
            r@ == Map::<Seq<char>, V>::empty(),
    {
        NameMap { entries: Vec::new() }
    }

    /// Bind `name` to `value`, shadowing any earlier binding of `name`.
    pub fn insert(&mut self, name: String, value: V)
        ensures
            final(self)@ == old(self)@.insert(name@, value),
    {
        self.entries.insert(0, (name, value));
        proof {
            assert(self.entries@.drop_first() =~= old(self).entries@);
        }
    }

    /// Look up the current binding of `name`.
    pub fn get(&self, name: &String) -> (r: Option<&V>)
        ensures
            match r {
                Some(v) => self@.contains_key(name@) && *v == self@[name@],
                None => !self@.contains_key(name@),
            },
    {
        let mut i: usize = 0;
        while i < self.entries.len()
            invariant
                0 <= i <= self.entries@.len(),
                forall|k: int| 0 <= k < i ==> self.entries@[k].0@ != name@,
            decreases self.entries@.len() - i,
        {
            if self.entries[i].0 == *name {
                proof {
                    lemma_entries_map_first_hit(self.entries@, name@, i as int);
                }
                return Some(&self.entries[i].1);
            }
            i = i + 1;
        }
        proof {
            lemma_entries_map_absent(self.entries@, name@);
        }
        None
    }

    /// Whether `name` currently has a binding.
    pub fn contains_key(&self, name: &String) -> (r: bool)
        ensures
            r == self@.contains_key(name@),
    {
        match self.get(name) {
            Some(_) => true,
            None => false,
        }
    }
}

/// If the first `i` entries miss `name` and entry `i` hits it, the map's
/// binding for `name` is entry `i`'s value.
proof fn lemma_entries_map_first_hit<V>(entries: Seq<(String, V)>, name: Seq<char>, i: int)
    requires
        0 <= i < entries.len(),
        entries[i].0@ == name,
        forall|k: int| 0 <= k < i ==> entries[k].0@ != name,
    ensures
        entries_map(entries).contains_key(name),
        entries_map(entries)[name] == entries[i].1,
    decreases entries.len(),
{
    if i > 0 {
        lemma_entries_map_first_hit(entries.drop_first(), name, i - 1);
    }
}

/// If no entry carries `name`, the map has no binding for it.
proof fn lemma_entries_map_absent<V>(entries: Seq<(String, V)>, name: Seq<char>)
    requires
        forall|k: int| 0 <= k < entries.len() ==> entries[k].0@ != name,
    ensures
        !entries_map(entries).contains_key(name),
    decreases entries.len(),
{
    if entries.len() > 0 {
        lemma_entries_map_absent(entries.drop_first(), name);
    }
}

} // verus!

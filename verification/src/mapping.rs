//! The group mapping: which live group stands for which configured group.

use vstd::prelude::*;

verus! {

/// One recorded pair.
#[derive(Clone, Debug, PartialEq, Eq)]
struct MappingEntry {
    name: String,
    id: String,
}

/// A one-way map from configured group name to live group identifier.
///
/// It is filled during startup and only consulted afterwards. A name that was
/// recorded twice answers with the identifier recorded last.
#[derive(Clone, Debug, PartialEq, Eq)]
pub struct GroupMapping {
    entries: Vec<MappingEntry>,
}

/// The map that a list of pairs stands for, later pairs overriding earlier ones.
pub open spec fn table(pairs: Seq<(Seq<char>, Seq<char>)>) -> Map<Seq<char>, Seq<char>>
    decreases pairs.len(),
{
    if pairs.len() == 0 {
        Map::empty()
    } else {
        table(pairs.drop_last()).insert(pairs.last().0, pairs.last().1)
    }
}

/// A name with no pair has no entry in the table.
pub proof fn lemma_table_absent(pairs: Seq<(Seq<char>, Seq<char>)>, name: Seq<char>)
    requires
        forall|j: int| 0 <= j < pairs.len() ==> (#[trigger] pairs[j]).0 != name,
    ensures
        !table(pairs).contains_key(name),
    decreases pairs.len(),
{
    if pairs.len() != 0 {
        assert(pairs.last() == pairs[pairs.len() - 1]);
        assert forall|j: int| 0 <= j < pairs.drop_last().len() implies (
        #[trigger] pairs.drop_last()[j]).0 != name by {
            assert(pairs.drop_last()[j] == pairs[j]);
        }
        lemma_table_absent(pairs.drop_last(), name);
    }
}

/// The table answers with the last pair recorded for a name.
pub proof fn lemma_table_last(pairs: Seq<(Seq<char>, Seq<char>)>, name: Seq<char>, i: int)
    requires
        0 <= i < pairs.len(),
        pairs[i].0 == name,
        forall|j: int| i < j < pairs.len() ==> (#[trigger] pairs[j]).0 != name,
    ensures
        table(pairs).contains_key(name),
        table(pairs)[name] == pairs[i].1,
    decreases pairs.len(),
{
    if i < pairs.len() - 1 {
        assert(pairs.last() == pairs[pairs.len() - 1]);
        assert(pairs.drop_last()[i] == pairs[i]);
        assert forall|j: int| i < j < pairs.drop_last().len() implies (
        #[trigger] pairs.drop_last()[j]).0 != name by {
            assert(pairs.drop_last()[j] == pairs[j]);
        }
        lemma_table_last(pairs.drop_last(), name, i);
    }
}

impl GroupMapping {
    /// The pairs in the order in which they were recorded.
    pub closed spec fn pairs(&self) -> Seq<(Seq<char>, Seq<char>)> {
        Seq::new(self.entries@.len(), |i: int| (self.entries@[i].name@, self.entries@[i].id@))
    }

    /// A mapping without entries.
    pub fn new() -> (mapping: GroupMapping)
        ensures
            mapping.pairs() == Seq::<(Seq<char>, Seq<char>)>::empty(),
            mapping@ == Map::<Seq<char>, Seq<char>>::empty(),
    {
        let mapping = GroupMapping { entries: Vec::new() };
        assert(mapping.pairs() =~= Seq::empty());
        mapping
    }

    /// Records that the live group `id` stands for the configured group `name`.
    pub fn insert(&mut self, name: String, id: String)
        ensures
            final(self).pairs() == old(self).pairs().push((name@, id@)),
            final(self)@ == old(self)@.insert(name@, id@),
    {
        self.entries.push(MappingEntry { name, id });
        assert(self.pairs() =~= old(self).pairs().push((name@, id@)));
        assert(self.pairs().drop_last() =~= old(self).pairs());
    }

    /// The live group that stands for `name`, if one was recorded.
    pub fn get(&self, name: &String) -> (found: Option<&String>)
        ensures
            match found {
                Some(id) => self@.contains_key(name@) && self@[name@] == id@,
                None => !self@.contains_key(name@),
            },
    {
        let mut i: usize = self.entries.len();
        while i > 0
            invariant
                i <= self.entries.len(),
                forall|j: int|
                    i <= j < self.entries.len() ==> (#[trigger] self.pairs()[j]).0 != name@,
            decreases i,
        {
            i -= 1;
            if self.entries[i].name == *name {
                proof {
                    lemma_table_last(self.pairs(), name@, i as int);
                }
                return Some(&self.entries[i].id);
            }
        }
        proof {
            lemma_table_absent(self.pairs(), name@);
        }
        None
    }

    /// How many pairs were recorded, a name recorded twice counting twice.
    pub fn len(&self) -> (n: usize)
        ensures
            n == self.pairs().len(),
    {
        self.entries.len()
    }
}

impl View for GroupMapping {
    type V = Map<Seq<char>, Seq<char>>;

    open spec fn view(&self) -> Map<Seq<char>, Seq<char>> {
        table(self.pairs())
    }
}

} // verus!

//! Lists of names read as sets.
//!
//! Identifiers are strings. A set of them is kept as a list; the functions
//! here answer the set questions on such lists, whatever the order and
//! however often a name is repeated.

use vstd::prelude::*;

verus! {

/// The set of names that a list holds.
pub open spec fn name_set(list: Seq<Seq<char>>) -> Set<Seq<char>> {
    list.to_set()
}

/// Whether `name` occurs in `list`.
pub fn contains_name(list: &Vec<String>, name: &String) -> (found: bool)
    ensures
        found == list.deep_view().contains(name@),
{
    let mut i: usize = 0;
    while i < list.len()
        invariant
            i <= list.len(),
            forall|j: int| 0 <= j < i ==> list.deep_view()[j] != name@,
        decreases list.len() - i,
    {
        if list[i] == *name {
            assert(list.deep_view()[i as int] == name@);
            return true;
        }
        i += 1;
    }
    false
}

/// Whether every name of `inner` occurs in `outer`.
pub fn is_subset(inner: &Vec<String>, outer: &Vec<String>) -> (within: bool)
    ensures
        within == name_set(inner.deep_view()).subset_of(name_set(outer.deep_view())),
{
    let mut i: usize = 0;
    while i < inner.len()
        invariant
            i <= inner.len(),
            forall|j: int|
                0 <= j < i ==> outer.deep_view().contains(#[trigger] inner.deep_view()[j]),
        decreases inner.len() - i,
    {
        if !contains_name(outer, &inner[i]) {
            proof {
                let missing = inner.deep_view()[i as int];
                assert(inner.deep_view().contains(missing));
                assert(name_set(inner.deep_view()).contains(missing));
                assert(!name_set(outer.deep_view()).contains(missing));
            }
            return false;
        }
        i += 1;
    }
    true
}

/// Whether the two lists hold the same names.
pub fn same_names(left: &Vec<String>, right: &Vec<String>) -> (same: bool)
    ensures
        same == (name_set(left.deep_view()) == name_set(right.deep_view())),
{
    let same = is_subset(left, right) && is_subset(right, left);
    proof {
        if same {
            assert(name_set(left.deep_view()) =~= name_set(right.deep_view()));
        }
    }
    same
}

/// Whether `name` is the one and only name that `list` holds.
pub fn holds_only(list: &Vec<String>, name: &String) -> (only: bool)
    ensures
        only == (name_set(list.deep_view()) == set![name@]),
{
    if list.len() == 0 {
        assert(!name_set(list.deep_view()).contains(name@));
        assert(set![name@].contains(name@));
        return false;
    }
    let mut i: usize = 0;
    while i < list.len()
        invariant
            i <= list.len(),
            list.len() > 0,
            forall|j: int| 0 <= j < i ==> list.deep_view()[j] == name@,
        decreases list.len() - i,
    {
        if list[i] != *name {
            assert(list.deep_view().contains(list.deep_view()[i as int]));
            assert(!set![name@].contains(list.deep_view()[i as int]));
            return false;
        }
        i += 1;
    }
    proof {
        assert(list.deep_view()[0] == name@);
        assert(name_set(list.deep_view()) =~= set![name@]);
    }
    true
}

/// A copy of the list, name for name.
pub fn clone_names(list: &Vec<String>) -> (copy: Vec<String>)
    ensures
        copy.deep_view() == list.deep_view(),
{
    let mut copy: Vec<String> = Vec::new();
    let mut i: usize = 0;
    while i < list.len()
        invariant
            i <= list.len(),
            copy.len() == i,
            forall|j: int| 0 <= j < i ==> copy.deep_view()[j] == list.deep_view()[j],
        decreases list.len() - i,
    {
        copy.push(list[i].clone());
        i += 1;
    }
    assert(copy.deep_view() =~= list.deep_view());
    copy
}

} // verus!

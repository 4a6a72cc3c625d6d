//! Sequence operations that the plans are stated with, and their lemmas.

use vstd::prelude::*;

verus! {

/// The concatenation of `f(x)` over the items `x` of `xs`, in order.
pub open spec fn concat_map<A, B>(xs: Seq<A>, f: spec_fn(A) -> Seq<B>) -> Seq<B>
    decreases xs.len(),
{
    if xs.len() == 0 {
        Seq::empty()
    } else {
        concat_map(xs.drop_last(), f) + f(xs.last())
    }
}

/// `i` is the least index of `xs` at which `p` holds.
pub open spec fn is_first<A>(xs: Seq<A>, p: spec_fn(A) -> bool, i: int) -> bool {
    &&& 0 <= i < xs.len()
    &&& p(xs[i])
    &&& forall|j: int| 0 <= j < i ==> !p(#[trigger] xs[j])
}

/// The least index of `xs` at which `p` holds, if there is one.
pub open spec fn first_index<A>(xs: Seq<A>, p: spec_fn(A) -> bool) -> Option<int> {
    if exists|i: int| is_first(xs, p, i) {
        Some(choose|i: int| is_first(xs, p, i))
    } else {
        None
    }
}

/// An index found by a search, as the specifications count it.
pub open spec fn as_index(found: Option<usize>) -> Option<int> {
    match found {
        Some(i) => Some(i as int),
        None => None,
    }
}

/// How often `x` occurs in `xs`.
pub open spec fn occurrences<A>(xs: Seq<A>, x: A) -> nat
    decreases xs.len(),
{
    if xs.len() == 0 {
        0
    } else {
        occurrences(xs.drop_last(), x) + if xs.last() == x { 1nat } else { 0nat }
    }
}

/// Whether a later item of `xs` has the key of the item at `i`.
pub open spec fn superseded<A, K>(xs: Seq<A>, key: spec_fn(A) -> K, i: int) -> bool {
    exists|j: int| i < j < xs.len() && key(#[trigger] xs[j]) == key(xs[i])
}

/// Of the first `n` items of `xs`, those that no later item supersedes.
pub open spec fn survivors<A, K>(xs: Seq<A>, key: spec_fn(A) -> K, n: int) -> Seq<A>
    decreases n,
{
    if n <= 0 {
        Seq::empty()
    } else if superseded(xs, key, n - 1) {
        survivors(xs, key, n - 1)
    } else {
        survivors(xs, key, n - 1).push(xs[n - 1])
    }
}

/// For each key the last item of `xs` that has it, in the order of `xs`.
pub open spec fn keep_last<A, K>(xs: Seq<A>, key: spec_fn(A) -> K) -> Seq<A> {
    survivors(xs, key, xs.len() as int)
}

/// The items of `xs` without repetitions, each where it first occurs.
pub open spec fn first_occurrences<A>(xs: Seq<A>) -> Seq<A>
    decreases xs.len(),
{
    if xs.len() == 0 {
        Seq::empty()
    } else {
        let earlier = first_occurrences(xs.drop_last());
        if earlier.contains(xs.last()) {
            earlier
        } else {
            earlier.push(xs.last())
        }
    }
}

/// `first_occurrences` repeats nothing and loses nothing.
pub proof fn lemma_first_occurrences<A>(xs: Seq<A>)
    ensures
        first_occurrences(xs).no_duplicates(),
        forall|x: A| first_occurrences(xs).contains(x) <==> xs.contains(x),
    decreases xs.len(),
{
    if xs.len() != 0 {
        let rest = xs.drop_last();
        let earlier = first_occurrences(rest);
        let all = first_occurrences(xs);
        lemma_first_occurrences(rest);
        assert forall|x: A| all.contains(x) <==> xs.contains(x) by {
            if all.contains(x) {
                let k = choose|k: int| 0 <= k < all.len() && all[k] == x;
                if k < earlier.len() {
                    assert(earlier[k] == x);
                    assert(earlier.contains(x));
                    assert(rest.contains(x));
                    let r = choose|r: int| 0 <= r < rest.len() && rest[r] == x;
                    assert(xs[r] == x);
                } else {
                    assert(xs[xs.len() - 1] == x);
                }
            }
            if xs.contains(x) {
                let r = choose|r: int| 0 <= r < xs.len() && xs[r] == x;
                if r < rest.len() {
                    assert(rest[r] == x);
                    assert(rest.contains(x));
                    assert(earlier.contains(x));
                    let k = choose|k: int| 0 <= k < earlier.len() && earlier[k] == x;
                    assert(all[k] == x);
                } else if earlier.contains(x) {
                } else {
                    assert(all[earlier.len() as int] == x);
                }
            }
        }
    }
}

/// Every item that `survivors` keeps is an item of `xs` that nothing
/// supersedes, and no two of them share a key.
pub proof fn lemma_survivors<A, K>(xs: Seq<A>, key: spec_fn(A) -> K, n: int)
    requires
        0 <= n <= xs.len(),
    ensures
        forall|a: int|
            0 <= a < survivors(xs, key, n).len() ==> exists|p: int|
                0 <= p < n && xs[p] == (#[trigger] survivors(xs, key, n)[a]) && !superseded(
                    xs,
                    key,
                    p,
                ),
        forall|a: int, b: int|
            0 <= a < b < survivors(xs, key, n).len() ==> key(#[trigger] survivors(xs, key, n)[a])
                != key(#[trigger] survivors(xs, key, n)[b]),
        forall|p: int|
            0 <= p < n && !superseded(xs, key, p) ==> survivors(xs, key, n).contains(
                #[trigger] xs[p],
            ),
    decreases n,
{
    if n > 0 {
        lemma_survivors(xs, key, n - 1);
        let earlier = survivors(xs, key, n - 1);
        let all = survivors(xs, key, n);
        assert forall|a: int| 0 <= a < all.len() implies exists|p: int|
            0 <= p < n && xs[p] == (#[trigger] all[a]) && !superseded(xs, key, p) by {
            if a < earlier.len() {
                let p = choose|p: int|
                    0 <= p < n - 1 && xs[p] == earlier[a] && !superseded(xs, key, p);
                assert(0 <= p < n && xs[p] == all[a] && !superseded(xs, key, p));
            } else {
                assert(xs[n - 1] == all[a] && !superseded(xs, key, n - 1));
            }
        }
        assert forall|a: int, b: int| 0 <= a < b < all.len() implies key(#[trigger] all[a]) != key(
            #[trigger] all[b],
        ) by {
            if b >= earlier.len() {
                let p = choose|p: int|
                    0 <= p < n - 1 && xs[p] == earlier[a] && !superseded(xs, key, p);
                if key(all[a]) == key(all[b]) {
                    assert(key(xs[n - 1]) == key(xs[p]));
                    assert(superseded(xs, key, p));
                }
            }
        }
        assert forall|p: int| 0 <= p < n && !superseded(xs, key, p) implies all.contains(
            #[trigger] xs[p],
        ) by {
            if p < n - 1 {
                assert(earlier.contains(xs[p]));
                let k = choose|k: int| 0 <= k < earlier.len() && earlier[k] == xs[p];
                assert(all[k] == xs[p]);
            } else {
                assert(all[all.len() - 1] == xs[p]);
            }
        }
    }
}

/// Taking one more item of `xs` appends that item's contribution.
pub proof fn lemma_concat_map_step<A, B>(xs: Seq<A>, f: spec_fn(A) -> Seq<B>, i: int)
    requires
        0 <= i < xs.len(),
    ensures
        concat_map(xs.take(i + 1), f) == concat_map(xs.take(i), f) + f(xs[i]),
{
    assert(xs.take(i + 1).drop_last() =~= xs.take(i));
}

/// A command is in the concatenation exactly if some item contributes it.
pub proof fn lemma_concat_map_contains<A, B>(xs: Seq<A>, f: spec_fn(A) -> Seq<B>, b: B)
    ensures
        concat_map(xs, f).contains(b) <==> exists|i: int|
            0 <= i < xs.len() && #[trigger] f(xs[i]).contains(b),
    decreases xs.len(),
{
    if xs.len() == 0 {
    } else {
        let rest = xs.drop_last();
        let head = concat_map(rest, f);
        let tail = f(xs.last());
        lemma_concat_map_contains(rest, f, b);
        if concat_map(xs, f).contains(b) {
            let k = choose|k: int| 0 <= k < (head + tail).len() && (head + tail)[k] == b;
            if k < head.len() {
                assert(head[k] == b);
                let i = choose|i: int| 0 <= i < rest.len() && #[trigger] f(rest[i]).contains(b);
                assert(f(xs[i]).contains(b));
            } else {
                assert(tail[k - head.len()] == b);
                assert(f(xs[xs.len() - 1]).contains(b));
            }
        }
        if exists|i: int| 0 <= i < xs.len() && #[trigger] f(xs[i]).contains(b) {
            let i = choose|i: int| 0 <= i < xs.len() && #[trigger] f(xs[i]).contains(b);
            if i < rest.len() {
                assert(f(rest[i]).contains(b));
                let k = choose|k: int| 0 <= k < head.len() && head[k] == b;
                assert((head + tail)[k] == b);
            } else {
                let k = choose|k: int| 0 <= k < tail.len() && tail[k] == b;
                assert((head + tail)[head.len() + k] == b);
            }
        }
    }
}

/// Nothing is emitted exactly if no item contributes anything.
pub proof fn lemma_concat_map_empty<A, B>(xs: Seq<A>, f: spec_fn(A) -> Seq<B>)
    ensures
        concat_map(xs, f).len() == 0 <==> forall|i: int|
            0 <= i < xs.len() ==> (#[trigger] f(xs[i])).len() == 0,
    decreases xs.len(),
{
    if xs.len() != 0 {
        let rest = xs.drop_last();
        lemma_concat_map_empty(rest, f);
        if concat_map(xs, f).len() == 0 {
            assert forall|i: int| 0 <= i < xs.len() implies (#[trigger] f(xs[i])).len() == 0 by {
                if i < rest.len() {
                    assert(f(rest[i]).len() == 0);
                }
            }
        }
        if forall|i: int| 0 <= i < xs.len() ==> (#[trigger] f(xs[i])).len() == 0 {
            assert forall|i: int| 0 <= i < rest.len() implies (#[trigger] f(rest[i])).len()
                == 0 by {
                assert(f(xs[i]).len() == 0);
            }
            assert(f(xs[xs.len() - 1]).len() == 0);
        }
    }
}

/// Occurrences add up over a concatenation.
pub proof fn lemma_occurrences_add<A>(xs: Seq<A>, ys: Seq<A>, x: A)
    ensures
        occurrences(xs + ys, x) == occurrences(xs, x) + occurrences(ys, x),
    decreases ys.len(),
{
    if ys.len() == 0 {
        assert(xs + ys =~= xs);
    } else {
        assert((xs + ys).drop_last() =~= xs + ys.drop_last());
        lemma_occurrences_add(xs, ys.drop_last(), x);
    }
}

/// An item occurs zero times exactly if the sequence does not contain it.
pub proof fn lemma_occurrences_none<A>(xs: Seq<A>, x: A)
    ensures
        occurrences(xs, x) == 0 <==> !xs.contains(x),
    decreases xs.len(),
{
    if xs.len() != 0 {
        let rest = xs.drop_last();
        lemma_occurrences_none(rest, x);
        if xs.contains(x) {
            let k = choose|k: int| 0 <= k < xs.len() && xs[k] == x;
            if k < rest.len() {
                assert(rest[k] == x);
            }
        }
        if rest.contains(x) {
            let k = choose|k: int| 0 <= k < rest.len() && rest[k] == x;
            assert(xs[k] == x);
        }
        if xs.last() == x {
            assert(xs[xs.len() - 1] == x);
        }
    }
}

/// In a sequence of one item, that item occurs once and no other occurs.
pub proof fn lemma_occurrences_one<A>(x: A, y: A)
    ensures
        occurrences(seq![x], y) == if x == y {
            1nat
        } else {
            0nat
        },
{
    let one = seq![x];
    assert(one.drop_last() =~= Seq::<A>::empty());
    assert(occurrences(one.drop_last(), y) == 0);
    assert(one.last() == x);
}

/// Where a single item contributes `b`, `b` occurs in the concatenation as
/// often as in that item's contribution.
pub proof fn lemma_concat_map_occurrences<A, B>(
    xs: Seq<A>,
    f: spec_fn(A) -> Seq<B>,
    b: B,
    g: int,
)
    requires
        0 <= g < xs.len(),
        forall|i: int| 0 <= i < xs.len() && i != g ==> !(#[trigger] f(xs[i])).contains(b),
    ensures
        occurrences(concat_map(xs, f), b) == occurrences(f(xs[g]), b),
    decreases xs.len(),
{
    let rest = xs.drop_last();
    lemma_occurrences_add(concat_map(rest, f), f(xs.last()), b);
    if g == xs.len() - 1 {
        lemma_concat_map_contains(rest, f, b);
        if concat_map(rest, f).contains(b) {
            let i = choose|i: int| 0 <= i < rest.len() && #[trigger] f(rest[i]).contains(b);
            assert(f(xs[i]).contains(b));
        }
        lemma_occurrences_none(concat_map(rest, f), b);
    } else {
        assert forall|i: int| 0 <= i < rest.len() && i != g implies !(#[trigger] f(
            rest[i],
        )).contains(b) by {
            assert(!f(xs[i]).contains(b));
        }
        lemma_concat_map_occurrences(rest, f, b, g);
        assert(rest[g] == xs[g]);
        assert(!f(xs[xs.len() - 1]).contains(b));
        lemma_occurrences_none(f(xs.last()), b);
    }
}

/// The least index is unique: whoever finds one has found `first_index`.
pub proof fn lemma_first_index_is<A>(xs: Seq<A>, p: spec_fn(A) -> bool, i: int)
    requires
        is_first(xs, p, i),
    ensures
        first_index(xs, p) == Some(i),
{
    let c = choose|c: int| is_first(xs, p, c);
    assert(is_first(xs, p, c));
    if c < i {
        assert(!p(xs[c]));
    }
    if i < c {
        assert(!p(xs[i]));
    }
}

/// Where `p` holds nowhere, there is no least index; and the other way round.
pub proof fn lemma_first_index_none<A>(xs: Seq<A>, p: spec_fn(A) -> bool)
    ensures
        first_index(xs, p) is None <==> forall|j: int| 0 <= j < xs.len() ==> !p(#[trigger] xs[j]),
{
    if !(forall|j: int| 0 <= j < xs.len() ==> !p(#[trigger] xs[j])) {
        let j = choose|j: int| 0 <= j < xs.len() && p(#[trigger] xs[j]);
        lemma_first_exists(xs, p, j);
    }
    if first_index(xs, p) is Some {
        let c = choose|c: int| is_first(xs, p, c);
        assert(p(xs[c]));
    }
}

/// Where `p` holds somewhere, it holds at a least index.
pub proof fn lemma_first_exists<A>(xs: Seq<A>, p: spec_fn(A) -> bool, j: int)
    requires
        0 <= j < xs.len(),
        p(xs[j]),
    ensures
        exists|i: int| is_first(xs, p, i),
    decreases j,
{
    if forall|k: int| 0 <= k < j ==> !p(#[trigger] xs[k]) {
        assert(is_first(xs, p, j));
    } else {
        let k = choose|k: int| 0 <= k < j && p(#[trigger] xs[k]);
        lemma_first_exists(xs, p, k);
    }
}

/// Two sequences on which `p` holds at the same places have the same least
/// index.
pub proof fn lemma_first_index_congruent<A>(xs: Seq<A>, ys: Seq<A>, p: spec_fn(A) -> bool)
    requires
        xs.len() == ys.len(),
        forall|j: int| 0 <= j < xs.len() ==> p(#[trigger] xs[j]) == p(ys[j]),
    ensures
        first_index(xs, p) == first_index(ys, p),
{
    lemma_first_index_none(xs, p);
    lemma_first_index_none(ys, p);
    if first_index(xs, p) is Some {
        let i = first_index(xs, p).unwrap();
        assert(is_first(xs, p, i));
        assert forall|j: int| 0 <= j < i implies !p(#[trigger] ys[j]) by {
            assert(!p(xs[j]));
        }
        assert(is_first(ys, p, i));
        lemma_first_index_is(ys, p, i);
    } else {
        assert forall|j: int| 0 <= j < ys.len() implies !p(#[trigger] ys[j]) by {
            assert(!p(xs[j]));
        }
    }
}

} // verus!

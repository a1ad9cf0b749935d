//! String-keyed association lists abstracted to `Map`, with the lemmas the
//! mapping and the cache both need, and deep-view helpers for `Vec` edits.

use vstd::prelude::*;

verus! {

/// The map denoted by an association list; a later entry overwrites an
/// earlier one with the same key.
pub open spec fn assoc_map<V>(s: Seq<(Seq<char>, V)>) -> Map<Seq<char>, V>
    decreases s.len(),
{
    if s.len() == 0 {
        Map::empty()
    } else {
        assoc_map(s.drop_last()).insert(s.last().0, s.last().1)
    }
}

/// No two entries share a key.
pub open spec fn keys_unique<V>(s: Seq<(Seq<char>, V)>) -> bool {
    forall|i: int, j: int| 0 <= i < j < s.len() ==> (#[trigger] s[i]).0 != (#[trigger] s[j]).0
}

/// A key is in the map exactly when some entry carries it.
pub proof fn lemma_assoc_map_contains<V>(s: Seq<(Seq<char>, V)>, k: Seq<char>)
    ensures
        assoc_map(s).contains_key(k) <==> exists|i: int| 0 <= i < s.len() && (#[trigger] s[i]).0
            == k,
    decreases s.len(),
{
    if s.len() > 0 {
        lemma_assoc_map_contains(s.drop_last(), k);
        if s.last().0 == k {
            assert(s[s.len() - 1].0 == k);
        } else if assoc_map(s).contains_key(k) {
            let i = choose|i: int| 0 <= i < s.drop_last().len() && (#[trigger] s.drop_last()[i]).0
                == k;
            assert(s[i].0 == k);
        } else {
            assert forall|i: int| 0 <= i < s.len() implies (#[trigger] s[i]).0 != k by {
                if i < s.len() - 1 {
                    assert(s.drop_last()[i].0 != k);
                }
            }
        }
    }
}

/// With unique keys, each entry is the map's value at its key.
pub proof fn lemma_assoc_map_index<V>(s: Seq<(Seq<char>, V)>, i: int)
    requires
        keys_unique(s),
        0 <= i < s.len(),
    ensures
        assoc_map(s).contains_key(s[i].0),
        assoc_map(s)[s[i].0] == s[i].1,
    decreases s.len(),
{
    if i == s.len() - 1 {
    } else {
        assert(keys_unique(s.drop_last()));
        assert(s.drop_last()[i] == s[i]);
        lemma_assoc_map_index(s.drop_last(), i);
        assert(s[i].0 != s.last().0);
    }
}

/// With unique keys, replacing the value of the entry at `i` is an insert.
pub proof fn lemma_assoc_map_update<V>(s: Seq<(Seq<char>, V)>, i: int, v: V)
    requires
        keys_unique(s),
        0 <= i < s.len(),
    ensures
        assoc_map(s.update(i, (s[i].0, v))) == assoc_map(s).insert(s[i].0, v),
    decreases s.len(),
{
    let t = s.update(i, (s[i].0, v));
    if i == s.len() - 1 {
        assert(t.drop_last() =~= s.drop_last());
        assert(assoc_map(t) =~= assoc_map(s).insert(s[i].0, v));
    } else {
        assert(t.drop_last() =~= s.drop_last().update(i, (s[i].0, v)));
        assert(keys_unique(s.drop_last()));
        lemma_assoc_map_update(s.drop_last(), i, v);
        assert(s.drop_last()[i] == s[i]);
        assert(t.last() == s.last());
        assert(s[i].0 != s.last().0);
        assert(assoc_map(t) =~= assoc_map(s).insert(s[i].0, v));
    }
}

/// Appending an entry is an insert.
pub proof fn lemma_assoc_map_push<V>(s: Seq<(Seq<char>, V)>, k: Seq<char>, v: V)
    ensures
        assoc_map(s.push((k, v))) == assoc_map(s).insert(k, v),
{
    assert(s.push((k, v)).drop_last() =~= s);
}

/// A `Vec` whose view is an update has the updated deep view.
pub proof fn lemma_deep_view_update<T: DeepView>(a: Vec<T>, b: Vec<T>, i: int, x: T)
    requires
        0 <= i < a@.len(),
        b@ == a@.update(i, x),
    ensures
        b.deep_view() == a.deep_view().update(i, x.deep_view()),
{
    assert forall|j: int| 0 <= j < b@.len() implies b.deep_view()[j] == a.deep_view().update(
        i,
        x.deep_view(),
    )[j] by {
        if j == i {
            assert(b@[j] == x);
        } else {
            assert(b@[j] == a@[j]);
        }
    }
    assert(b.deep_view() =~= a.deep_view().update(i, x.deep_view()));
}

/// A `Vec` whose view is a push has the pushed deep view.
pub proof fn lemma_deep_view_push<T: DeepView>(a: Vec<T>, b: Vec<T>, x: T)
    requires
        b@ == a@.push(x),
    ensures
        b.deep_view() == a.deep_view().push(x.deep_view()),
{
    assert forall|j: int| 0 <= j < b@.len() implies b.deep_view()[j] == a.deep_view().push(
        x.deep_view(),
    )[j] by {
        if j < a@.len() {
            assert(b@[j] == a@[j]);
        } else {
            assert(b@[j] == x);
        }
    }
    assert(b.deep_view() =~= a.deep_view().push(x.deep_view()));
}

} // verus!

//! Association lists keyed by text: the mapping a list of entries denotes when a later
//! entry for a key hides an earlier one.
use vstd::prelude::*;

verus! {

/// The mapping that `s` denotes: later entries win.
pub open spec fn assoc<V>(s: Seq<(Seq<char>, V)>) -> Map<Seq<char>, V>
    decreases s.len(),
{
    if s.len() == 0 {
        Map::empty()
    } else {
        assoc(s.drop_last()).insert(s.last().0, s.last().1)
    }
}

/// The entries of `s` whose key is not `k`, in order.
pub open spec fn without<V>(s: Seq<(Seq<char>, V)>, k: Seq<char>) -> Seq<(Seq<char>, V)>
    decreases s.len(),
{
    if s.len() == 0 {
        s
    } else if s.last().0 == k {
        without(s.drop_last(), k)
    } else {
        without(s.drop_last(), k).push(s.last())
    }
}

pub proof fn lemma_assoc_absent<V>(s: Seq<(Seq<char>, V)>, k: Seq<char>)
    requires
        forall|j: int| 0 <= j < s.len() ==> (#[trigger] s[j]).0 != k,
    ensures
        !assoc(s).contains_key(k),
    decreases s.len(),
{
    if s.len() > 0 {
        lemma_assoc_absent(s.drop_last(), k);
    }
}

pub proof fn lemma_assoc_last<V>(s: Seq<(Seq<char>, V)>, k: Seq<char>, i: int)
    requires
        0 <= i < s.len(),
        s[i].0 == k,
        forall|j: int| i < j < s.len() ==> (#[trigger] s[j]).0 != k,
    ensures
        assoc(s).contains_key(k),
        assoc(s)[k] == s[i].1,
    decreases s.len(),
{
    if i < s.len() - 1 {
        lemma_assoc_last(s.drop_last(), k, i);
    }
}

pub proof fn lemma_assoc_update<V>(s: Seq<(Seq<char>, V)>, i: int, e: (Seq<char>, V))
    requires
        0 <= i < s.len(),
        s[i].0 == e.0,
        forall|j: int| i < j < s.len() ==> (#[trigger] s[j]).0 != e.0,
    ensures
        assoc(s.update(i, e)) == assoc(s).insert(e.0, e.1),
    decreases s.len(),
{
    let u = s.update(i, e);
    if i == s.len() - 1 {
        assert(u.drop_last() =~= s.drop_last());
        assert(assoc(u) =~= assoc(s).insert(e.0, e.1));
    } else {
        assert(u.drop_last() =~= s.drop_last().update(i, e));
        lemma_assoc_update(s.drop_last(), i, e);
        assert(assoc(u) =~= assoc(s).insert(e.0, e.1));
    }
}

pub proof fn lemma_assoc_push<V>(s: Seq<(Seq<char>, V)>, e: (Seq<char>, V))
    ensures
        assoc(s.push(e)) == assoc(s).insert(e.0, e.1),
{
    assert(s.push(e).drop_last() =~= s);
}

pub proof fn lemma_assoc_without<V>(s: Seq<(Seq<char>, V)>, k: Seq<char>)
    ensures
        assoc(without(s, k)) == assoc(s).remove(k),
    decreases s.len(),
{
    if s.len() == 0 {
        assert(assoc(s).remove(k) =~= Map::<Seq<char>, V>::empty());
    } else {
        let d = s.drop_last();
        lemma_assoc_without(d, k);
        if s.last().0 == k {
            assert(assoc(s).remove(k) =~= assoc(d).remove(k));
        } else {
            lemma_assoc_push(without(d, k), s.last());
            assert(assoc(s).remove(k) =~= assoc(d).remove(k).insert(s.last().0, s.last().1));
        }
    }
}

} // verus!

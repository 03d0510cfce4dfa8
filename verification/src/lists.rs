//! Facts about sequences that several parts of the engine use.
use vstd::prelude::*;

verus! {

/// Inserting an element adds one occurrence of it.
pub proof fn lemma_insert_multiset<A>(s: Seq<A>, at: int, x: A)
    requires
        0 <= at <= s.len(),
    ensures
        s.insert(at, x).to_multiset() == s.to_multiset().insert(x),
{
    let t = s.insert(at, x);
    assert(t.remove(at) =~= s);
    assert(t[at] == x);
    vstd::seq_lib::to_multiset_remove(t, at);
    assert(t.contains(x));
    t.to_multiset_ensures();
    assert(t.to_multiset().count(x) > 0);
    assert(t.to_multiset() =~= s.to_multiset().insert(x));
}

/// Removing an element takes one occurrence of it away.
pub proof fn lemma_remove_multiset<A>(s: Seq<A>, at: int)
    requires
        0 <= at < s.len(),
    ensures
        s.remove(at).to_multiset().insert(s[at]) == s.to_multiset(),
{
    assert(s.remove(at).insert(at, s[at]) =~= s);
    lemma_insert_multiset(s.remove(at), at, s[at]);
}

/// What a longer list holds.
pub proof fn lemma_push_contains<A>(list: Seq<A>, last: A, item: A)
    ensures
        list.push(last).contains(item) <==> list.contains(item) || item == last,
{
    let longer = list.push(last);
    if list.contains(item) {
        let i = choose|i: int| 0 <= i < list.len() && list[i] == item;
        assert(longer[i] == item);
    }
    if item == last {
        assert(longer[list.len() as int] == item);
    }
}

} // verus!

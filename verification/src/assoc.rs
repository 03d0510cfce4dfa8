//! Maps from names to values, kept as lists in ascending order of the names.
use vstd::prelude::*;

use crate::text;

verus! {

/// The position of the first entry named `name`, or the number of entries when
/// there is none.
pub open spec fn index_of<V>(entries: Seq<(String, V)>, name: Seq<char>) -> int
    decreases entries.len(),
{
    if entries.len() == 0 {
        0
    } else if entries[0].0@ == name {
        0
    } else {
        1 + index_of(entries.drop_first(), name)
    }
}

/// Whether there is an entry named `name`.
pub open spec fn has<V>(entries: Seq<(String, V)>, name: Seq<char>) -> bool {
    exists|i: int| 0 <= i < entries.len() && (#[trigger] entries[i]).0@ == name
}

/// The value of the first entry named `name`.
pub open spec fn lookup<V>(entries: Seq<(String, V)>, name: Seq<char>) -> Option<V> {
    let at = index_of(entries, name);
    if at < entries.len() {
        Some(entries[at].1)
    } else {
        None
    }
}

/// The entries stand in strictly ascending order of their names.
pub open spec fn ascending<V>(entries: Seq<(String, V)>) -> bool {
    forall|i: int, j: int|
        0 <= i < j < entries.len() ==> text::lex_less(
            (#[trigger] entries[i]).0@,
            (#[trigger] entries[j]).0@,
        )
}

/// The first position whose name comes after `name`, or the number of entries
/// when there is none.
pub open spec fn rank<V>(entries: Seq<(String, V)>, name: Seq<char>) -> int
    decreases entries.len(),
{
    if entries.len() == 0 || text::lex_less(name, entries[0].0@) {
        0
    } else {
        1 + rank(entries.drop_first(), name)
    }
}

/// The entries with the one named `name` given `value`: in its place where
/// there is one, else as a new entry in the order of names.
pub open spec fn with_entry<V>(entries: Seq<(String, V)>, name: String, value: V) -> Seq<
    (String, V),
> {
    let at = index_of(entries, name@);
    if at < entries.len() {
        entries.update(at, (entries[at].0, value))
    } else {
        entries.insert(rank(entries, name@), (name, value))
    }
}

/// The entries without the first one named `name`.
pub open spec fn without_entry<V>(entries: Seq<(String, V)>, name: Seq<char>) -> Seq<(String, V)> {
    let at = index_of(entries, name);
    if at < entries.len() {
        entries.remove(at)
    } else {
        entries
    }
}

pub proof fn lemma_index_of<V>(entries: Seq<(String, V)>, name: Seq<char>)
    ensures
        0 <= index_of(entries, name) <= entries.len(),
        index_of(entries, name) < entries.len() <==> has(entries, name),
        index_of(entries, name) < entries.len() ==> entries[index_of(entries, name)].0@ == name,
        forall|i: int| 0 <= i < index_of(entries, name) ==> (#[trigger] entries[i]).0@ != name,
    decreases entries.len(),
{
    if entries.len() > 0 && entries[0].0@ != name {
        lemma_index_of(entries.drop_first(), name);
        assert forall|i: int| 0 <= i < index_of(entries, name) implies (
        #[trigger] entries[i]).0@ != name by {
            if i > 0 {
                assert(entries.drop_first()[i - 1] == entries[i]);
            }
        }
        if has(entries, name) {
            let i = choose|i: int| 0 <= i < entries.len() && (#[trigger] entries[i]).0@ == name;
            assert(entries.drop_first()[i - 1] == entries[i]);
        }
        if has(entries.drop_first(), name) {
            let i = choose|i: int|
                0 <= i < entries.drop_first().len() && (#[trigger] entries.drop_first()[i]).0@
                    == name;
            assert(entries.drop_first()[i] == entries[i + 1]);
        }
    } else if entries.len() > 0 {
        assert(entries[0].0@ == name);
    }
}

pub proof fn lemma_index_is<V>(entries: Seq<(String, V)>, name: Seq<char>, at: int)
    requires
        0 <= at <= entries.len(),
        at < entries.len() ==> entries[at].0@ == name,
        forall|i: int| 0 <= i < at ==> (#[trigger] entries[i]).0@ != name,
    ensures
        index_of(entries, name) == at,
{
    lemma_index_of(entries, name);
    let found = index_of(entries, name);
    if found < at {
        assert(entries[found].0@ != name);
    } else if at < found {
        assert(entries[at].0@ != name);
    }
}

pub proof fn lemma_rank<V>(entries: Seq<(String, V)>, name: Seq<char>)
    ensures
        0 <= rank(entries, name) <= entries.len(),
        rank(entries, name) < entries.len() ==> text::lex_less(
            name,
            entries[rank(entries, name)].0@,
        ),
        forall|i: int|
            0 <= i < rank(entries, name) ==> !text::lex_less(name, (#[trigger] entries[i]).0@),
    decreases entries.len(),
{
    if entries.len() > 0 && !text::lex_less(name, entries[0].0@) {
        lemma_rank(entries.drop_first(), name);
        assert forall|i: int| 0 <= i < rank(entries, name) implies !text::lex_less(
            name,
            (#[trigger] entries[i]).0@,
        ) by {
            if i > 0 {
                assert(entries.drop_first()[i - 1] == entries[i]);
            }
        }
    }
}

proof fn lemma_rank_is<V>(entries: Seq<(String, V)>, name: Seq<char>, at: int)
    requires
        0 <= at <= entries.len(),
        at < entries.len() ==> text::lex_less(name, entries[at].0@),
        forall|i: int| 0 <= i < at ==> !text::lex_less(name, (#[trigger] entries[i]).0@),
    ensures
        rank(entries, name) == at,
{
    lemma_rank(entries, name);
    let found = rank(entries, name);
    if found < at {
        assert(!text::lex_less(name, entries[found].0@));
    } else if at < found {
        assert(!text::lex_less(name, entries[at].0@));
    }
}

/// Setting an entry keeps the order of names.
pub proof fn lemma_with_entry_ascending<V>(entries: Seq<(String, V)>, name: String, value: V)
    requires
        ascending(entries),
    ensures
        ascending(with_entry(entries, name, value)),
{
    lemma_index_of(entries, name@);
    lemma_rank(entries, name@);
    let at = index_of(entries, name@);
    let k = rank(entries, name@);
    let result = with_entry(entries, name, value);
    assert forall|i: int, j: int| 0 <= i < j < result.len() implies text::lex_less(
        (#[trigger] result[i]).0@,
        (#[trigger] result[j]).0@,
    ) by {
        if at < entries.len() {
            assert(result[i].0@ == entries[i].0@ && result[j].0@ == entries[j].0@);
        } else if i < k && j == k {
            assert(entries[i].0@ != name@);
            text::lemma_lex_total(entries[i].0@, name@);
        } else if i == k {
            assert(result[j] == entries[j - 1]);
            if j - 1 > k {
                text::lemma_lex_transitive(name@, entries[k].0@, entries[j - 1].0@);
            }
        } else {
            let a = if i < k {
                i
            } else {
                i - 1
            };
            let b = if j < k {
                j
            } else {
                j - 1
            };
            assert(result[i] == entries[a] && result[j] == entries[b]);
        }
    }
}

/// Taking an entry away keeps the order of names.
pub proof fn lemma_without_entry_ascending<V>(entries: Seq<(String, V)>, name: Seq<char>)
    requires
        ascending(entries),
    ensures
        ascending(without_entry(entries, name)),
{
    lemma_index_of(entries, name);
    let at = index_of(entries, name);
    let result = without_entry(entries, name);
    assert forall|i: int, j: int| 0 <= i < j < result.len() implies text::lex_less(
        (#[trigger] result[i]).0@,
        (#[trigger] result[j]).0@,
    ) by {
        if at < entries.len() {
            let a = if i < at {
                i
            } else {
                i + 1
            };
            let b = if j < at {
                j
            } else {
                j + 1
            };
            assert(result[i] == entries[a] && result[j] == entries[b]);
        }
    }
}

/// An entry that was set is found with its new value, and every other one as
/// it was.
pub proof fn lemma_with_entry_found<V>(
    entries: Seq<(String, V)>,
    name: String,
    value: V,
    other: Seq<char>,
)
    ensures
        lookup(with_entry(entries, name, value), name@) == Some(value),
        other != name@ ==> lookup(with_entry(entries, name, value), other) == lookup(
            entries,
            other,
        ),
{
    lemma_index_of(entries, name@);
    lemma_rank(entries, name@);
    lemma_index_of(entries, other);
    let at = index_of(entries, name@);
    let k = rank(entries, name@);
    let result = with_entry(entries, name, value);
    let o = index_of(entries, other);
    if at < entries.len() {
        lemma_index_is(result, name@, at);
        if other != name@ {
            lemma_index_is(result, other, o);
        }
    } else {
        assert forall|i: int| 0 <= i < k implies (#[trigger] result[i]).0@ != name@ by {
            assert(result[i] == entries[i]);
        }
        lemma_index_is(result, name@, k);
        if other != name@ {
            let moved = if o < k {
                o
            } else {
                o + 1
            };
            assert forall|i: int| 0 <= i < moved implies (#[trigger] result[i]).0@ != other by {
                if i < k {
                    assert(result[i] == entries[i]);
                } else if i > k {
                    assert(result[i] == entries[i - 1]);
                }
            }
            lemma_index_is(result, other, moved);
        }
    }
}

/// Where names are ordered, an entry that was taken away is not found, and
/// every other one is found as it was.
pub proof fn lemma_without_entry_found<V>(
    entries: Seq<(String, V)>,
    name: Seq<char>,
    other: Seq<char>,
)
    requires
        ascending(entries),
    ensures
        lookup(without_entry(entries, name), name) is None,
        other != name ==> lookup(without_entry(entries, name), other) == lookup(entries, other),
{
    lemma_index_of(entries, name);
    lemma_index_of(entries, other);
    let at = index_of(entries, name);
    let o = index_of(entries, other);
    let result = without_entry(entries, name);
    if at < entries.len() {
        assert forall|i: int| 0 <= i < result.len() implies (#[trigger] result[i]).0@ != name by {
            if i < at {
                assert(result[i] == entries[i]);
            } else {
                assert(result[i] == entries[i + 1]);
                text::lemma_lex_asymmetric(entries[at].0@, entries[i + 1].0@);
            }
        }
        lemma_index_is(result, name, result.len() as int);
        if other != name {
            let moved = if o <= at {
                o
            } else {
                o - 1
            };
            assert forall|i: int| 0 <= i < moved implies (#[trigger] result[i]).0@ != other by {
                if i < at {
                    assert(result[i] == entries[i]);
                } else {
                    assert(result[i] == entries[i + 1]);
                }
            }
            if moved < result.len() {
                assert(result[moved] == entries[o]);
            }
            lemma_index_is(result, other, moved);
        }
    }
}

/// Finds the position of the first entry named `name`.
pub fn position<V>(entries: &Vec<(String, V)>, name: &str) -> (at: usize)
    ensures
        at == index_of(entries@, name@),
        at <= entries@.len(),
        at < entries@.len() <==> has(entries@, name@),
{
    let mut i: usize = 0;
    while i < entries.len()
        invariant
            i <= entries@.len(),
            forall|j: int| 0 <= j < i ==> (#[trigger] entries@[j]).0@ != name@,
        decreases entries@.len() - i,
    {
        if text::same(entries[i].0.as_str(), name) {
            proof {
                lemma_index_is(entries@, name@, i as int);
                lemma_index_of(entries@, name@);
            }
            return i;
        }
        i = i + 1;
    }
    proof {
        lemma_index_is(entries@, name@, entries@.len() as int);
        lemma_index_of(entries@, name@);
    }
    entries.len()
}

/// Finds the value of the entry named `name`.
pub fn find<'a, V>(entries: &'a Vec<(String, V)>, name: &str) -> (found: Option<&'a V>)
    ensures
        match found {
            Some(value) => lookup(entries@, name@) == Some(*value),
            None => lookup(entries@, name@) is None,
        },
        found is Some <==> has(entries@, name@),
{
    let at: usize = position(entries, name);
    if at < entries.len() {
        Some(&entries[at].1)
    } else {
        None
    }
}

/// Gives the entry named `name` the value `value`.
pub fn set<V>(entries: &mut Vec<(String, V)>, name: String, value: V)
    ensures
        final(entries)@ == with_entry(old(entries)@, name, value),
{
    let at: usize = position(entries, name.as_str());
    if at < entries.len() {
        entries[at].1 = value;
        proof {
            assert(entries@ =~= with_entry(old(entries)@, name, value));
        }
        return;
    }
    let mut k: usize = 0;
    while k < entries.len() && !text::less(name.as_str(), entries[k].0.as_str())
        invariant
            k <= entries@.len(),
            entries@ == old(entries)@,
            forall|j: int| 0 <= j < k ==> !text::lex_less(name@, (#[trigger] entries@[j]).0@),
        decreases entries@.len() - k,
    {
        k = k + 1;
    }
    proof {
        lemma_rank_is(entries@, name@, k as int);
    }
    entries.insert(k, (name, value));
}

/// Takes the entry named `name` away, and hands back its value.
pub fn remove<V>(entries: &mut Vec<(String, V)>, name: &str) -> (removed: Option<V>)
    ensures
        final(entries)@ == without_entry(old(entries)@, name@),
        removed == lookup(old(entries)@, name@),
{
    let at: usize = position(entries, name);
    if at < entries.len() {
        let entry = entries.remove(at);
        Some(entry.1)
    } else {
        None
    }
}

} // verus!

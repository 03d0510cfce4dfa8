//! Where the keys of an entry are looked for, and where not.
use vstd::prelude::*;

use crate::lore::activation::{Examined, examined, Scene, search_for, searched};
use crate::lore::decision::LoreDecisionOutcome;
use crate::lore::decision_laws::{is_looked_at, lemma_triggered, needs_no_key};
use crate::lore::entry::LoreEntry;
use crate::lore::matching::{law_found_keys_are_mentioned, mentioned, Mentioned, mentions};
use crate::text::{contains, interspersed, occurs_at, views};

verus! {

/// How many of the newest messages are searched for the keys of an entry.
pub open spec fn depth_for(entry: LoreEntry, scene: Scene) -> usize {
    match entry.scan_depth {
        Some(depth) => depth,
        None => scene.settings.scan_depth,
    }
}

/// The letters' case counts for the keys of an entry, and they may stand within words.
pub open spec fn is_searched_plainly(entry: LoreEntry, scene: Scene) -> bool {
    &&& match entry.case_sensitive {
        Some(sensitive) => sensitive,
        None => scene.settings.case_sensitive,
    }
    &&& match entry.match_whole_words {
        Some(whole) => !whole,
        None => !scene.settings.match_whole_words,
    }
    &&& forall|i: int|
        0 <= i < entry.keys@.len() ==> (#[trigger] entry.keys@[i])@.len() > 0
            && entry.keys@[i]@[0] != '/'
}

/// At the first step messages beyond the depth of an entry make no difference, nor
/// does what entries have brought in.
pub proof fn law_older_messages_do_not_count(
    entry: LoreEntry,
    scene: Scene,
    other: Scene,
    recursion: Seq<Seq<char>>,
    other_recursion: Seq<Seq<char>>,
    asked: nat,
)
    requires
        other == (Scene { messages: other.messages, ..scene }),
        depth_for(entry, scene) <= scene.messages.len(),
        depth_for(entry, scene) <= other.messages.len(),
        forall|i: int|
            0 <= i < depth_for(entry, scene) ==> #[trigger] scene.messages[i]
                == other.messages[i],
    ensures
        examined(entry, scene, recursion, 0, asked) == examined(
            entry,
            other,
            other_recursion,
            0,
            asked,
        ),
{
    let depth = depth_for(entry, scene) as int;
    assert(scene.messages.take(depth) =~= other.messages.take(depth));
}

proof fn lemma_part_is_within(parts: Seq<Seq<char>>, between: Seq<char>, i: int, needle: Seq<char>)
    requires
        0 <= i < parts.len(),
        contains(parts[i], needle),
    ensures
        contains(interspersed(parts, between), needle),
    decreases parts.len(),
{
    let all = interspersed(parts, between);
    if parts.len() > 1 {
        let head = interspersed(parts.drop_last(), between);
        if i < parts.len() - 1 {
            lemma_part_is_within(parts.drop_last(), between, i, needle);
            let at = choose|at: int| occurs_at(head, needle, at);
            assert(all.subrange(at, at + needle.len()) =~= head.subrange(
                at,
                at + needle.len(),
            ));
            assert(occurs_at(all, needle, at));
        } else {
            let at = choose|at: int| occurs_at(parts[i], needle, at);
            let on = head.len() + between.len() + at;
            assert(all.subrange(on, on + needle.len()) =~= parts[i].subrange(
                at,
                at + needle.len(),
            ));
            assert(occurs_at(all, needle, on));
        }
    }
}

proof fn lemma_within_is_in_a_part(
    parts: Seq<Seq<char>>,
    between: Seq<char>,
    needle: Seq<char>,
) -> (i: int)
    requires
        needle.len() > 0,
        contains(interspersed(parts, between), needle),
        forall|k: int| 0 <= k < needle.len() ==> !between.contains(#[trigger] needle[k]),
        between.len() > 0,
    ensures
        0 <= i < parts.len(),
        contains(parts[i], needle),
    decreases parts.len(),
{
    let all = interspersed(parts, between);
    let at = choose|at: int| occurs_at(all, needle, at);
    let end = at + needle.len();
    if parts.len() <= 1 {
        0
    } else {
        let head = interspersed(parts.drop_last(), between);
        let last = parts.last();
        let from = head.len() as int;
        let to = (head.len() + between.len()) as int;
        if end <= from {
            assert(head.subrange(at, end) =~= all.subrange(at, end));
            assert(occurs_at(head, needle, at));
            lemma_within_is_in_a_part(parts.drop_last(), between, needle)
        } else if at >= to {
            assert(last.subrange(at - to, end - to) =~= all.subrange(at, end));
            assert(occurs_at(last, needle, at - to));
            parts.len() - 1
        } else {
            let place = if at < from {
                from
            } else {
                at
            };
            assert(all[place] == between[place - from]);
            assert(all.subrange(at, end)[place - at] == all[place]);
            assert(between.contains(needle[place - at]));
            0
        }
    }
}

/// An entry that is looked at and has a key that stands in one of the messages within
/// its depth, or after the first step in what entries have brought in, is not passed
/// over for want of a key.
pub proof fn law_keys_in_reach_are_found(
    entry: LoreEntry,
    scene: Scene,
    recursion: Seq<Seq<char>>,
    step: int,
    asked: nat,
    k: int,
    i: int,
)
    requires
        is_searched_plainly(entry, scene),
        0 <= k < entry.keys@.len(),
        (0 <= i < scene.messages.len() && i < depth_for(entry, scene) && contains(
            scene.messages[i],
            entry.keys@[k]@,
        )) || (step > 0 && 0 <= i < recursion.len() && contains(recursion[i], entry.keys@[k]@)),
    ensures
        examined(entry, scene, recursion, step, asked) matches Examined::Out(decision, _)
            ==> decision.outcome != LoreDecisionOutcome::NoPrimaryMatch,
{
    let keys = views(entry.keys@);
    let key = keys[k];
    let search = search_for(entry, scene, recursion, step);
    let parts = searched(entry, scene, recursion, step);
    let depth = depth_for(entry, scene);
    let newest = if depth <= scene.messages.len() {
        scene.messages.take(depth as int)
    } else {
        scene.messages
    };
    if 0 <= i < scene.messages.len() && i < depth && contains(scene.messages[i], key) {
        assert(parts[i] == scene.messages[i]);
        lemma_part_is_within(parts, "\n\u{1}"@, i, key);
    } else {
        assert(parts[newest.len() + i] == recursion[i]);
        lemma_part_is_within(parts, "\n\u{1}"@, newest.len() + i, key);
    }
    assert forall|j: int| 0 <= j < keys.len() implies (#[trigger] keys[j]).len() > 0 && keys[j][0]
        != '/' by {
        assert(keys[j] == entry.keys@[j]@);
    }
    law_found_keys_are_mentioned(search, keys, asked);
    assert(keys.contains(key));
    match mentioned(search, keys, asked) {
        Mentioned::Keys(found, _) => {
            assert(mentions(search.text, key, search.case_sensitive, search.whole_words));
            assert(found.contains(key));
        },
        Mentioned::Fault(_) => {},
    }
}

/// A key that is told as found stands in one of the messages within the depth of the
/// entry, or after the first step in what entries have brought in.
pub proof fn law_found_keys_are_in_reach(
    entry: LoreEntry,
    scene: Scene,
    recursion: Seq<Seq<char>>,
    step: int,
    asked: nat,
    key: Seq<char>,
)
    requires
        is_searched_plainly(entry, scene),
        0 <= step <= usize::MAX,
        !key.contains('\n'),
        !key.contains('\u{1}'),
        examined(entry, scene, recursion, step, asked) matches Examined::In(decision, _)
            && decision.primary_matches.contains(key),
    ensures
        exists|k: int| 0 <= k < entry.keys@.len() && (#[trigger] entry.keys@[k])@ == key,
        (exists|i: int|
            0 <= i < scene.messages.len() && i < depth_for(entry, scene) && contains(
                #[trigger] scene.messages[i],
                key,
            )) || (step > 0 && exists|i: int|
            0 <= i < recursion.len() && contains(#[trigger] recursion[i], key)),
{
    let keys = views(entry.keys@);
    let search = search_for(entry, scene, recursion, step);
    let parts = searched(entry, scene, recursion, step);
    assert forall|j: int| 0 <= j < keys.len() implies (#[trigger] keys[j]).len() > 0 && keys[j][0]
        != '/' by {
        assert(keys[j] == entry.keys@[j]@);
    }
    law_found_keys_are_mentioned(search, keys, asked);
    match mentioned(search, keys, asked) {
        Mentioned::Keys(found, _) => {
            assert(found.contains(key));
            let k = choose|k: int| 0 <= k < keys.len() && keys[k] == key;
            assert(entry.keys@[k]@ == key);
            reveal_strlit("\n\u{1}");
            assert forall|m: int| 0 <= m < key.len() implies !"\n\u{1}"@.contains(
                #[trigger] key[m],
            ) by {
                assert(key.contains(key[m]));
                if "\n\u{1}"@.contains(key[m]) {
                    let z = choose|z: int| 0 <= z < 2 && "\n\u{1}"@[z] == key[m];
                    assert(z == 0 || z == 1);
                }
            }
            let i = lemma_within_is_in_a_part(parts, "\n\u{1}"@, key);
            let depth = depth_for(entry, scene);
            let newest = if depth <= scene.messages.len() {
                scene.messages.take(depth as int)
            } else {
                scene.messages
            };
            if i < newest.len() {
                assert(parts[i] == scene.messages[i]);
            } else {
                assert(parts[i] == recursion[i - newest.len()]);
            }
        },
        Mentioned::Fault(_) => {},
    }
}

/// An entry that is looked at and needs no key is called for without a question.
pub proof fn law_constant_entries_need_no_key(
    entry: LoreEntry,
    scene: Scene,
    recursion: Seq<Seq<char>>,
    step: usize,
    asked: nat,
)
    requires
        is_looked_at(entry, scene.settings, step),
        needs_no_key(entry, scene.settings),
    ensures
        examined(entry, scene, recursion, step as int, asked) matches Examined::In(_, n) && n
            == asked,
{
    lemma_triggered(entry, scene.settings);
}

} // verus!

//! Presets made from others: with other settings, or with prompts switched on
//! and off.
use vstd::prelude::*;
use vstd::utf8::{encode_utf8, encode_utf8_decode_utf8, is_ascii_chars_encode_utf8};

use crate::artifact::kind::{
    ArtifactError, ArtifactKind, DecodedArtifact, kind_name, lemma_kind_names_are_short,
};
use crate::artifact::revision::{ArtifactRecord, is_import, revision_message};
use crate::assoc;
use crate::identity::{
    ARTIFACT_REVISION_DOMAIN, collide, countable, lemma_parts_are_told_apart, preimage,
    pretty_bytes, pretty_of, revision_hash_of,
};
use crate::json::{
    as_flag, as_items, as_text, copy_members, field, find_member, items_view, Json, JsonNumber,
    JsonNumberView, JsonView, lemma_array_view, lemma_object_view, lemma_with_member_found,
    lemma_without_member_found, member, members_view, remove_member, set_member, with_member,
    without_member,
};
use crate::prompt::preset::{CHAT_COMPLETION_CHARACTER_ID, speaks_of};

verus! {

/// The settings that a copy of a preset is given. A temperature that is no
/// finite number is told by its text.
#[derive(Debug)]
pub struct PresetPatch {
    pub preset_name: String,
    pub temperature: Result<JsonNumber, String>,
    pub reasoning_effort: Option<String>,
    pub max_context: JsonNumber,
    pub max_tokens: JsonNumber,
    pub use_sysprompt: bool,
}

/// The members of a preset once it is given other settings.
pub open spec fn patched_members(
    members: Seq<(Seq<char>, JsonView)>,
    patch: PresetPatch,
    temperature: JsonNumberView,
) -> Seq<(Seq<char>, JsonView)> {
    let first = with_member(
        with_member(members, "preset_name"@, JsonView::Text(patch.preset_name@)),
        "temperature"@,
        JsonView::Number(temperature),
    );
    let second = match patch.reasoning_effort {
        Some(effort) => with_member(first, "reasoning_effort"@, JsonView::Text(effort@)),
        None => without_member(first, "reasoning_effort"@),
    };
    with_member(
        with_member(
            with_member(
                with_member(second, "max_context"@, JsonView::Number(patch.max_context@)),
                "openai_max_context"@,
                JsonView::Number(patch.max_context@),
            ),
            "openai_max_tokens"@,
            JsonView::Number(patch.max_tokens@),
        ),
        "use_sysprompt"@,
        JsonView::Bool(patch.use_sysprompt),
    )
}

/// The preset with other settings, or why there is none.
pub open spec fn patched_preset(
    kind: ArtifactKind,
    semantic: JsonView,
    patch: PresetPatch,
) -> Result<JsonView, ArtifactError> {
    if kind != ArtifactKind::ChatCompletionPreset {
        Err(ArtifactError::ChatCompletionPresetRequired(kind))
    } else {
        match semantic {
            JsonView::Object(members) => match patch.temperature {
                Ok(temperature) => Ok(
                    JsonView::Object(patched_members(members, patch, temperature@)),
                ),
                Err(text) => Err(ArtifactError::InvalidPresetTemperature(text)),
            },
            _ => Err(ArtifactError::ExpectedObject),
        }
    }
}

fn set(members: &mut Vec<(String, Json)>, name: &str, value: Json)
    ensures
        members_view(final(members)@) == with_member(
            members_view(old(members)@),
            name@,
            value@,
        ),
{
    set_member(members, name.to_owned(), value);
}

fn patch_members(
    members: &mut Vec<(String, Json)>,
    patch: &PresetPatch,
    temperature: &JsonNumber,
)
    ensures
        members_view(final(members)@) == patched_members(
            members_view(old(members)@),
            *patch,
            temperature@,
        ),
{
    set(members, "preset_name", Json::Text(patch.preset_name.clone()));
    set(members, "temperature", Json::Number(temperature.copy()));
    match &patch.reasoning_effort {
        Some(effort) => set(members, "reasoning_effort", Json::Text(effort.clone())),
        None => {
            let _ = remove_member(members, "reasoning_effort");
        },
    }
    set(members, "max_context", Json::Number(patch.max_context.copy()));
    set(members, "openai_max_context", Json::Number(patch.max_context.copy()));
    set(members, "openai_max_tokens", Json::Number(patch.max_tokens.copy()));
    set(members, "use_sysprompt", Json::Bool(patch.use_sysprompt));
}

/// A copy of a preset with other settings, as bytes.
pub fn clone_and_patch_preset(
    decoded: &DecodedArtifact,
    patch: &PresetPatch,
) -> (r: Result<Vec<u8>, ArtifactError>)
    ensures
        match patched_preset(decoded.kind, decoded.semantic@, *patch) {
            Ok(preset) => match r {
                Ok(bytes) => pretty_of(preset) == Some(bytes@),
                Err(e) => pretty_of(preset) is None && e == ArtifactError::Canonicalize,
            },
            Err(expected) => r == Err::<Vec<u8>, ArtifactError>(expected),
        },
{
    if decoded.kind != ArtifactKind::ChatCompletionPreset {
        return Err(ArtifactError::ChatCompletionPresetRequired(decoded.kind));
    }
    let members = match decoded.semantic.members() {
        Some(members) => members,
        None => return Err(ArtifactError::ExpectedObject),
    };
    let temperature = match &patch.temperature {
        Ok(temperature) => temperature,
        Err(text) => return Err(ArtifactError::InvalidPresetTemperature(text.clone())),
    };
    let mut patched = copy_members(members);
    patch_members(&mut patched, patch, temperature);
    proof {
        lemma_object_view(patched);
    }
    let preset = Json::Object(patched);
    match pretty_bytes(&preset) {
        Some(bytes) => Ok(bytes),
        None => Err(ArtifactError::Canonicalize),
    }
}

/// An entry of a prompt order once the prompts named are switched.
pub open spec fn switched(entry: JsonView, changes: Seq<(String, bool)>) -> JsonView {
    match (entry, as_text(field(entry, "identifier"@))) {
        (JsonView::Object(members), Some(identifier)) => match assoc::lookup(changes, identifier) {
            Some(enabled) => JsonView::Object(
                with_member(members, "enabled"@, JsonView::Bool(enabled)),
            ),
            None => entry,
        },
        _ => entry,
    }
}

/// Switching the prompts named changes an entry of a prompt order.
pub open spec fn switches(entry: JsonView, changes: Seq<(String, bool)>) -> bool {
    match as_text(field(entry, "identifier"@)) {
        Some(identifier) => match assoc::lookup(changes, identifier) {
            Some(enabled) => as_flag(field(entry, "enabled"@)) != Some(enabled),
            None => false,
        },
        None => false,
    }
}

/// The entries of a prompt order once the prompts named are switched.
pub open spec fn switched_all(entries: Seq<JsonView>, changes: Seq<(String, bool)>) -> Seq<
    JsonView,
> {
    Seq::new(entries.len(), |i: int| switched(entries[i], changes))
}

/// Switching the prompts named changes some entry.
pub open spec fn switches_any(entries: Seq<JsonView>, changes: Seq<(String, bool)>) -> bool {
    exists|i: int| 0 <= i < entries.len() && switches(#[trigger] entries[i], changes)
}

/// The first of the profiles from place `i` on that is a character's, or
/// `profiles.len()`.
pub open spec fn profile_of(profiles: Seq<JsonView>, character_id: u64, i: int) -> int
    decreases profiles.len() - i,
{
    if i < 0 || i >= profiles.len() {
        profiles.len() as int
    } else if speaks_of(profiles[i], character_id) {
        i
    } else {
        profile_of(profiles, character_id, i + 1)
    }
}

/// The first of the profiles from place `i` on that has an order, or
/// `profiles.len()`.
pub open spec fn profile_with_order(profiles: Seq<JsonView>, i: int) -> int
    decreases profiles.len() - i,
{
    if i < 0 || i >= profiles.len() {
        profiles.len() as int
    } else if field(profiles[i], "order"@) is Some {
        i
    } else {
        profile_with_order(profiles, i + 1)
    }
}

/// The profile whose order is changed: the character's, or else the first that
/// has an order.
pub open spec fn chosen_profile(profiles: Seq<JsonView>, character_id: u64) -> int {
    let own = profile_of(profiles, character_id, 0);
    if own < profiles.len() {
        own
    } else {
        profile_with_order(profiles, 0)
    }
}

/// The entries that are changed within what a preset holds as its prompt order.
pub open spec fn chosen_order(prompt_order: JsonView, character_id: u64) -> Option<Seq<JsonView>> {
    match prompt_order {
        JsonView::Array(profiles) => {
            let at = chosen_profile(profiles, character_id);
            if 0 <= at < profiles.len() {
                as_items(field(profiles[at], "order"@))
            } else {
                Some(profiles)
            }
        },
        other => as_items(field(other, "order"@)),
    }
}

/// An object with other entries as its order.
pub open spec fn with_order(object: JsonView, entries: Seq<JsonView>) -> JsonView {
    match object {
        JsonView::Object(members) => JsonView::Object(
            with_member(members, "order"@, JsonView::Array(entries)),
        ),
        other => other,
    }
}

/// What a preset holds as its prompt order, with other entries in place of
/// those that are changed.
pub open spec fn with_chosen_order(
    prompt_order: JsonView,
    character_id: u64,
    entries: Seq<JsonView>,
) -> JsonView {
    match prompt_order {
        JsonView::Array(profiles) => {
            let at = chosen_profile(profiles, character_id);
            if 0 <= at < profiles.len() {
                JsonView::Array(profiles.update(at, with_order(profiles[at], entries)))
            } else {
                JsonView::Array(entries)
            }
        },
        other => with_order(other, entries),
    }
}

/// The character whose order is changed where none is named.
pub open spec fn character_or_default(character_id: Option<u64>) -> u64 {
    match character_id {
        Some(id) => id,
        None => CHAT_COMPLETION_CHARACTER_ID,
    }
}

/// A preset with prompts switched, nothing where that changes nothing, or why it
/// cannot be done.
pub open spec fn reordered_preset(
    kind: ArtifactKind,
    semantic: JsonView,
    character_id: Option<u64>,
    changes: Seq<(String, bool)>,
) -> Result<Option<JsonView>, ArtifactError> {
    let id = character_or_default(character_id);
    if kind != ArtifactKind::ChatCompletionPreset {
        Err(ArtifactError::ChatCompletionPresetRequired(kind))
    } else {
        match semantic {
            JsonView::Object(members) => match member(members, "prompt_order"@) {
                None => Err(ArtifactError::MissingField("prompt_order")),
                Some(prompt_order) => match chosen_order(prompt_order, id) {
                    None => Err(ArtifactError::InvalidField("prompt_order")),
                    Some(entries) => if switches_any(entries, changes) {
                        Ok(
                            Some(
                                JsonView::Object(
                                    with_member(
                                        members,
                                        "prompt_order"@,
                                        with_chosen_order(
                                            prompt_order,
                                            id,
                                            switched_all(entries, changes),
                                        ),
                                    ),
                                ),
                            ),
                        )
                    } else {
                        Ok(None)
                    },
                },
            },
            _ => Err(ArtifactError::ExpectedObject),
        }
    }
}

fn find_switch(entry: &Json, changes: &Vec<(String, bool)>) -> (enabled: Option<bool>)
    ensures
        enabled == match as_text(field(entry@, "identifier"@)) {
            Some(identifier) => assoc::lookup(changes@, identifier),
            None => None,
        },
{
    let identifier = match entry.get("identifier") {
        Some(value) => match value.text() {
            Some(identifier) => identifier,
            None => return None,
        },
        None => return None,
    };
    match assoc::find(changes, identifier.as_str()) {
        Some(enabled) => Some(*enabled),
        None => None,
    }
}

fn switch_entry(entry: &Json, changes: &Vec<(String, bool)>) -> (r: (Json, bool))
    ensures
        r.0@ == switched(entry@, changes@),
        r.1 == switches(entry@, changes@),
{
    let enabled = match find_switch(entry, changes) {
        Some(enabled) => enabled,
        None => return (entry.copy(), false),
    };
    let members = match entry.members() {
        Some(members) => members,
        None => return (entry.copy(), true),
    };
    let changed = match entry.get("enabled") {
        Some(value) => match value.flag() {
            Some(flag) => flag != enabled,
            None => true,
        },
        None => true,
    };
    let mut copies = copy_members(members);
    set(&mut copies, "enabled", Json::Bool(enabled));
    proof {
        lemma_object_view(copies);
    }
    (Json::Object(copies), changed)
}

fn switch_all(entries: &Vec<Json>, changes: &Vec<(String, bool)>) -> (r: (Vec<Json>, bool))
    ensures
        items_view(r.0@) == switched_all(items_view(entries@), changes@),
        r.1 == switches_any(items_view(entries@), changes@),
{
    let ghost all = items_view(entries@);
    let mut list: Vec<Json> = Vec::new();
    let mut any = false;
    let mut i: usize = 0;
    while i < entries.len()
        invariant
            i <= entries@.len(),
            all == items_view(entries@),
            list@.len() == i,
            forall|j: int| 0 <= j < i ==> (#[trigger] list@[j])@ == switched(all[j], changes@),
            any == exists|j: int| 0 <= j < i && switches(#[trigger] all[j], changes@),
        decreases entries@.len() - i,
    {
        proof {
            assert(all[i as int] == entries@[i as int]@);
        }
        let (entry, changed) = switch_entry(&entries[i], changes);
        list.push(entry);
        any = any || changed;
        i = i + 1;
    }
    proof {
        assert(items_view(list@) =~= switched_all(all, changes@));
    }
    (list, any)
}

fn choose_profile(profiles: &Vec<Json>, character_id: u64) -> (at: usize)
    ensures
        at == chosen_profile(items_view(profiles@), character_id),
        at <= profiles@.len(),
{
    let ghost all = items_view(profiles@);
    let mut i: usize = 0;
    while i < profiles.len()
        invariant
            i <= profiles@.len(),
            all == items_view(profiles@),
            profile_of(all, character_id, 0) == profile_of(all, character_id, i as int),
        decreases profiles@.len() - i,
    {
        proof {
            assert(all[i as int] == profiles@[i as int]@);
        }
        if let Some(value) = profiles[i].get("character_id") {
            if let Some(id) = value.unsigned() {
                if id == character_id {
                    return i;
                }
            }
        }
        i = i + 1;
    }
    let mut k: usize = 0;
    while k < profiles.len()
        invariant
            k <= profiles@.len(),
            all == items_view(profiles@),
            profile_of(all, character_id, 0) == all.len(),
            profile_with_order(all, 0) == profile_with_order(all, k as int),
        decreases profiles@.len() - k,
    {
        proof {
            assert(all[k as int] == profiles@[k as int]@);
        }
        if profiles[k].get("order").is_some() {
            return k;
        }
        k = k + 1;
    }
    k
}

fn replace_order(object: &Json, entries: Vec<Json>) -> (r: Json)
    ensures
        r@ == with_order(object@, items_view(entries@)),
{
    match object.members() {
        Some(members) => {
            let mut copies = copy_members(members);
            proof {
                lemma_array_view(entries);
            }
            set(&mut copies, "order", Json::Array(entries));
            proof {
                lemma_object_view(copies);
            }
            Json::Object(copies)
        },
        None => object.copy(),
    }
}

fn copy_items(items: &Vec<Json>) -> (copies: Vec<Json>)
    ensures
        items_view(copies@) == items_view(items@),
        copies@.len() == items@.len(),
{
    let mut copies: Vec<Json> = Vec::new();
    let mut i: usize = 0;
    while i < items.len()
        invariant
            i <= items@.len(),
            copies@.len() == i,
            forall|j: int| 0 <= j < i ==> (#[trigger] copies@[j])@ == items@[j]@,
        decreases items@.len() - i,
    {
        copies.push(items[i].copy());
        i = i + 1;
    }
    proof {
        assert(items_view(copies@) =~= items_view(items@));
    }
    copies
}

/// What switching prompts within a prompt order comes to: the prompt order as
/// it becomes, and whether that changes it.
fn switch_order(prompt_order: &Json, character_id: u64, changes: &Vec<(String, bool)>) -> (r:
    Option<(Json, bool)>)
    ensures
        match (r, chosen_order(prompt_order@, character_id)) {
            (Some((value, changed)), Some(entries)) => {
                &&& changed == switches_any(entries, changes@)
                &&& value@ == with_chosen_order(
                    prompt_order@,
                    character_id,
                    switched_all(entries, changes@),
                )
            },
            (None, None) => true,
            _ => false,
        },
{
    if let Some(profiles) = prompt_order.items() {
        let at: usize = choose_profile(profiles, character_id);
        if at < profiles.len() {
            proof {
                assert(items_view(profiles@)[at as int] == profiles@[at as int]@);
            }
            let entries = match profiles[at].get("order") {
                Some(value) => match value.items() {
                    Some(entries) => entries,
                    None => return None,
                },
                None => return None,
            };
            let (list, changed) = switch_all(entries, changes);
            let profile = replace_order(&profiles[at], list);
            let mut copies = copy_items(profiles);
            let ghost before = items_view(copies@);
            copies.set(at, profile);
            proof {
                assert(items_view(copies@) =~= before.update(at as int, profile@));
                lemma_array_view(copies);
            }
            return Some((Json::Array(copies), changed));
        }
        let (list, changed) = switch_all(profiles, changes);
        proof {
            lemma_array_view(list);
        }
        return Some((Json::Array(list), changed));
    }
    match prompt_order.get("order") {
        Some(value) => match value.items() {
            Some(entries) => {
                let (list, changed) = switch_all(entries, changes);
                Some((replace_order(prompt_order, list), changed))
            },
            None => None,
        },
        None => None,
    }
}

/// Switches prompts of a preset on and off. The preset that this makes comes as
/// bytes; there are none where nothing changes.
pub fn patch_prompt_order(
    decoded: &DecodedArtifact,
    character_id: Option<u64>,
    changes: &Vec<(String, bool)>,
) -> (r: Result<Option<Vec<u8>>, ArtifactError>)
    ensures
        match reordered_preset(decoded.kind, decoded.semantic@, character_id, changes@) {
            Ok(Some(preset)) => match r {
                Ok(Some(bytes)) => pretty_of(preset) == Some(bytes@),
                Err(e) => pretty_of(preset) is None && e == ArtifactError::Canonicalize,
                _ => false,
            },
            Ok(None) => r == Ok::<Option<Vec<u8>>, ArtifactError>(None),
            Err(expected) => r == Err::<Option<Vec<u8>>, ArtifactError>(expected),
        },
{
    if decoded.kind != ArtifactKind::ChatCompletionPreset {
        return Err(ArtifactError::ChatCompletionPresetRequired(decoded.kind));
    }
    let members = match decoded.semantic.members() {
        Some(members) => members,
        None => return Err(ArtifactError::ExpectedObject),
    };
    let prompt_order = match find_member(members, "prompt_order") {
        Some(value) => value,
        None => return Err(ArtifactError::MissingField("prompt_order")),
    };
    let id: u64 = match character_id {
        Some(id) => id,
        None => CHAT_COMPLETION_CHARACTER_ID,
    };
    let (value, changed) = match switch_order(prompt_order, id, changes) {
        Some(found) => found,
        None => return Err(ArtifactError::InvalidField("prompt_order")),
    };
    if !changed {
        return Ok(None);
    }
    let mut copies = copy_members(members);
    set(&mut copies, "prompt_order", value);
    proof {
        lemma_object_view(copies);
    }
    let preset = Json::Object(copies);
    match pretty_bytes(&preset) {
        Some(bytes) => Ok(Some(bytes)),
        None => Err(ArtifactError::Canonicalize),
    }
}

/// Giving a preset other settings leaves every other member as it is.
pub proof fn law_patching_keeps_other_members(
    members: Seq<(Seq<char>, JsonView)>,
    patch: PresetPatch,
    temperature: JsonNumberView,
    name: Seq<char>,
)
    requires
        name != "preset_name"@,
        name != "temperature"@,
        name != "reasoning_effort"@,
        name != "max_context"@,
        name != "openai_max_context"@,
        name != "openai_max_tokens"@,
        name != "use_sysprompt"@,
    ensures
        member(patched_members(members, patch, temperature), name) == member(
            members,
            name,
        ),
{
    let a = with_member(members, "preset_name"@, JsonView::Text(patch.preset_name@));
    lemma_with_member_found(members, "preset_name"@, JsonView::Text(patch.preset_name@), name);
    let b = with_member(a, "temperature"@, JsonView::Number(temperature));
    lemma_with_member_found(a, "temperature"@, JsonView::Number(temperature), name);
    let c = match patch.reasoning_effort {
        Some(effort) => with_member(b, "reasoning_effort"@, JsonView::Text(effort@)),
        None => without_member(b, "reasoning_effort"@),
    };
    match patch.reasoning_effort {
        Some(effort) => {
            lemma_with_member_found(b, "reasoning_effort"@, JsonView::Text(effort@), name);
        },
        None => {
            lemma_without_member_found(b, "reasoning_effort"@, name);
        },
    }
    let context = JsonView::Number(patch.max_context@);
    let d = with_member(c, "max_context"@, context);
    lemma_with_member_found(c, "max_context"@, context, name);
    let e = with_member(d, "openai_max_context"@, context);
    lemma_with_member_found(d, "openai_max_context"@, context, name);
    let tokens = JsonView::Number(patch.max_tokens@);
    let f = with_member(e, "openai_max_tokens"@, tokens);
    lemma_with_member_found(e, "openai_max_tokens"@, tokens, name);
    lemma_with_member_found(f, "use_sysprompt"@, JsonView::Bool(patch.use_sysprompt), name);
}

/// Switching prompts changes nothing but the `enabled` members of the entries of
/// the order that are named: every other member of such an entry, every other
/// entry and every other member of the preset stays.
pub proof fn law_switching_touches_only_enabled(
    entries: Seq<JsonView>,
    changes: Seq<(String, bool)>,
    i: int,
    name: Seq<char>,
)
    requires
        0 <= i < entries.len(),
    ensures
        switched_all(entries, changes).len() == entries.len(),
        name != "enabled"@ ==> field(switched_all(entries, changes)[i], name) == field(
            entries[i],
            name,
        ),
        match as_text(field(entries[i], "identifier"@)) {
            Some(identifier) => match assoc::lookup(changes, identifier) {
                Some(enabled) => as_flag(field(switched_all(entries, changes)[i], "enabled"@))
                    == Some(enabled),
                None => switched_all(entries, changes)[i] == entries[i],
            },
            None => switched_all(entries, changes)[i] == entries[i],
        },
{
    match (entries[i], as_text(field(entries[i], "identifier"@))) {
        (JsonView::Object(members), Some(identifier)) => match assoc::lookup(
            changes,
            identifier,
        ) {
            Some(enabled) => {
                lemma_with_member_found(members, "enabled"@, JsonView::Bool(enabled), name);
                lemma_with_member_found(members, "enabled"@, JsonView::Bool(enabled), "enabled"@);
            },
            None => {},
        },
        _ => {},
    }
}

/// Switching prompts leaves every member of a preset but its order as it is, and
/// where every entry that is named is as it should be there is nothing new.
pub proof fn law_switching_keeps_the_preset(
    members: Seq<(Seq<char>, JsonView)>,
    character_id: Option<u64>,
    changes: Seq<(String, bool)>,
    name: Seq<char>,
)
    requires
        name != "prompt_order"@,
    ensures
        match reordered_preset(
            ArtifactKind::ChatCompletionPreset,
            JsonView::Object(members),
            character_id,
            changes,
        ) {
            Ok(Some(preset)) => field(preset, name) == member(members, name),
            Ok(None) => !switches_any(
                chosen_order(
                    member(members, "prompt_order"@)->0,
                    character_or_default(character_id),
                )->0,
                changes,
            ),
            Err(_) => true,
        },
{
    match member(members, "prompt_order"@) {
        Some(prompt_order) => {
            let id = character_or_default(character_id);
            match chosen_order(prompt_order, id) {
                Some(entries) => {
                    lemma_with_member_found(
                        members,
                        "prompt_order"@,
                        with_chosen_order(prompt_order, id, switched_all(entries, changes)),
                        name,
                    );
                },
                None => {},
            }
        },
        None => {},
    }
}

/// The entries that are switched are those that are read again: what a preset
/// holds as its order has them in the place of the old ones.
pub proof fn law_switched_entries_are_kept(
    prompt_order: JsonView,
    character_id: u64,
    entries: Seq<JsonView>,
    other: int,
)
    requires
        chosen_order(prompt_order, character_id) is Some,
        prompt_order is Array,
        0 <= chosen_profile(prompt_order->Array_0, character_id) < prompt_order->Array_0.len(),
        0 <= other < prompt_order->Array_0.len(),
    ensures
        ({
            let at = chosen_profile(prompt_order->Array_0, character_id);
            let after = with_chosen_order(prompt_order, character_id, entries);
            &&& after is Array
            &&& after->Array_0.len() == prompt_order->Array_0.len()
            &&& other != at ==> after->Array_0[other] == prompt_order->Array_0[other]
            &&& as_items(field(after->Array_0[at], "order"@)) == Some(entries)
        }),
{
    let at = chosen_profile(prompt_order->Array_0, character_id);
    match prompt_order->Array_0[at] {
        JsonView::Object(members) => {
            lemma_with_member_found(members, "order"@, JsonView::Array(entries), "order"@);
        },
        _ => {},
    }
}

/// Other entries in a prompt order make another prompt order.
proof fn lemma_order_is_another(prompt_order: JsonView, character_id: u64, entries: Seq<JsonView>)
    requires
        chosen_order(prompt_order, character_id) is Some,
        chosen_order(prompt_order, character_id) != Some(entries),
    ensures
        with_chosen_order(prompt_order, character_id, entries) != prompt_order,
{
    match prompt_order {
        JsonView::Array(profiles) => {
            let at = chosen_profile(profiles, character_id);
            if 0 <= at < profiles.len() {
                lemma_order_is_kept(profiles[at], entries);
                assert(profiles.update(at, with_order(profiles[at], entries))[at] != profiles[at]);
            }
        },
        other => lemma_order_is_kept(other, entries),
    }
}

proof fn lemma_order_is_kept(object: JsonView, entries: Seq<JsonView>)
    requires
        field(object, "order"@) is Some,
    ensures
        as_items(field(with_order(object, entries), "order"@)) == Some(entries),
{
    match object {
        JsonView::Object(members) => lemma_with_member_found(
            members,
            "order"@,
            JsonView::Array(entries),
            "order"@,
        ),
        _ => {},
    }
}

/// Switching prompts that are not as they should be makes another preset.
pub proof fn lemma_switched_presets_differ(
    semantic: JsonView,
    character_id: Option<u64>,
    changes: Seq<(String, bool)>,
)
    ensures
        reordered_preset(ArtifactKind::ChatCompletionPreset, semantic, character_id, changes)
            matches Ok(Some(preset)) ==> preset != semantic,
{
    let id = character_or_default(character_id);
    if let JsonView::Object(members) = semantic {
        if let Some(prompt_order) = member(members, "prompt_order"@) {
            if let Some(entries) = chosen_order(prompt_order, id) {
                if switches_any(entries, changes) {
                    let i = choose|i: int|
                        0 <= i < entries.len() && switches(#[trigger] entries[i], changes);
                    law_switching_touches_only_enabled(entries, changes, i, "enabled"@);
                    assert(switched_all(entries, changes)[i] != entries[i]);
                    let after = with_chosen_order(prompt_order, id, switched_all(entries, changes));
                    lemma_order_is_another(prompt_order, id, switched_all(entries, changes));
                    lemma_with_member_found(members, "prompt_order"@, after, "prompt_order"@);
                }
            }
        }
    }
}

/// A preset in which prompts were switched is another revision, unless the hash of
/// the two revisions collides. The preset is read again as it was written, and
/// what a source is read as depends on its bytes alone.
pub proof fn law_switched_presets_are_other_revisions(
    record: ArtifactRecord,
    source: Seq<u8>,
    semantic: JsonView,
    character_id: Option<u64>,
    changes: Seq<(String, bool)>,
    patched: ArtifactRecord,
    bytes: Seq<u8>,
    preset: Json,
    limit: usize,
    event_id: Seq<char>,
)
    requires
        record.kind == ArtifactKind::ChatCompletionPreset,
        record.revision_hash@ == revision_hash_of(
            kind_name(record.kind),
            record.source_format@,
            source,
        ),
        countable(seq![encode_utf8(record.source_format@), source]),
        reordered_preset(record.kind, semantic, character_id, changes) == Ok::<
            Option<JsonView>,
            ArtifactError,
        >(Some(preset@)),
        pretty_of(preset@) == Some(bytes),
        is_import(Ok(patched), bytes, Ok(preset), limit, event_id),
        record.source_format@ == "json"@ && source == bytes ==> preset@ == semantic,
        !collide(
            revision_message(record.kind, record.source_format@, source),
            revision_message(patched.kind, "json"@, bytes),
        ),
    ensures
        preset@ != semantic,
        patched.revision_hash@ != record.revision_hash@,
{
    lemma_switched_presets_differ(semantic, character_id, changes);
    let before = seq![
        encode_utf8(kind_name(record.kind)),
        encode_utf8(record.source_format@),
        source,
    ];
    let after = seq![encode_utf8(kind_name(patched.kind)), encode_utf8("json"@), bytes];
    if preimage(ARTIFACT_REVISION_DOMAIN@, before) == preimage(ARTIFACT_REVISION_DOMAIN@, after) {
        let given = seq![encode_utf8(record.source_format@), source];
        assert(given[0].len() <= u64::MAX && given[1].len() <= u64::MAX);
        lemma_kind_names_are_short(record.kind);
        lemma_kind_names_are_short(patched.kind);
        reveal_strlit("json");
        is_ascii_chars_encode_utf8("json"@);
        lemma_parts_are_told_apart(ARTIFACT_REVISION_DOMAIN@, before, after);
        assert(before[1] == after[1] && before[2] == after[2]);
        encode_utf8_decode_utf8(record.source_format@);
        encode_utf8_decode_utf8("json"@);
    }
}

} // verus!

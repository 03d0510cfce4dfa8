//! Prompt presets: prompts of their own, and the order of what a prompt holds.
use vstd::prelude::*;

use crate::assoc;
use crate::json::{as_items, as_signed, as_text, as_unsigned, field, items_view, Json, JsonView};
use crate::lore::entry::{bool_value, flag_or, string, text_or_empty, view_of};
use crate::prompt::segment::PromptError;
use crate::provider::ChatRole;
use crate::text;

verus! {

/// The character by whose order chat prompts are arranged.
pub const CHAT_COMPLETION_CHARACTER_ID: u64 = 100001;

/// A prompt that a preset brings.
#[derive(Clone, Debug, Eq, PartialEq)]
pub struct PresetPrompt {
    pub identifier: String,
    pub role: ChatRole,
    pub content: String,
    pub marker: bool,
    pub in_chat_depth: Option<usize>,
    pub in_chat_order: usize,
}

/// A place in the order of a prompt.
#[derive(Clone, Debug, Eq, PartialEq)]
pub struct PresetOrder {
    pub identifier: String,
    pub enabled: bool,
}

/// A preset: its prompts by identifier, in ascending order, and the order.
#[derive(Clone, Debug, Eq, PartialEq)]
pub struct PromptPreset {
    pub prompts: Vec<(String, PresetPrompt)>,
    pub order: Vec<PresetOrder>,
}

/// The abstract value of a [`PresetOrder`].
pub struct OrderView {
    pub identifier: Seq<char>,
    pub enabled: bool,
}

/// The abstract values of an order.
pub open spec fn order_views(order: Seq<PresetOrder>) -> Seq<OrderView> {
    Seq::new(
        order.len(),
        |i: int| OrderView { identifier: order[i].identifier@, enabled: order[i].enabled },
    )
}

/// The role that a preset names.
pub open spec fn role_of(value: Option<JsonView>) -> ChatRole {
    if as_text(value) == Some("user"@) {
        ChatRole::User
    } else if as_text(value) == Some("assistant"@) {
        ChatRole::Assistant
    } else {
        ChatRole::System
    }
}

fn parse_role(value: Option<&Json>) -> (role: ChatRole)
    ensures
        role == role_of(view_of(value)),
{
    if let Some(v) = value {
        if let Some(t) = v.text() {
            if text::same(t.as_str(), "user") {
                return ChatRole::User;
            }
            if text::same(t.as_str(), "assistant") {
                return ChatRole::Assistant;
            }
        }
    }
    ChatRole::System
}

/// The number of a value, or zero where it is none.
pub open spec fn number_or_zero(value: Option<JsonView>) -> usize {
    match as_unsigned(value) {
        Some(n) => n as usize,
        None => 0,
    }
}

fn parse_number(value: Option<&Json>) -> (number: usize)
    ensures
        number == number_or_zero(view_of(value)),
{
    match value {
        Some(v) => match v.unsigned() {
            Some(n) => n as usize,
            None => 0,
        },
        None => 0,
    }
}

/// The depth at which a prompt is put among the messages, if it is.
pub open spec fn injection_depth(prompt: JsonView) -> Option<usize> {
    if as_signed(field(prompt, "injection_position"@)) == Some(1i64) {
        Some(number_or_zero(field(prompt, "injection_depth"@)))
    } else {
        None
    }
}

/// The prompt that an object describes.
pub open spec fn is_prompt(prompt: PresetPrompt, value: JsonView) -> bool {
    &&& as_text(field(value, "identifier"@)) == Some(prompt.identifier@)
    &&& prompt.role == role_of(field(value, "role"@))
    &&& prompt.content@ == text_or_empty(field(value, "content"@))
    &&& prompt.marker == flag_or(field(value, "marker"@), false)
    &&& prompt.in_chat_depth == injection_depth(value)
    &&& prompt.in_chat_order == number_or_zero(field(value, "injection_order"@))
}

/// What is wrong with a prompt of a preset, if anything is.
pub open spec fn prompt_error(value: JsonView) -> Option<PromptError> {
    if !(value is Object) {
        Some(PromptError::InvalidPrompt)
    } else if as_text(field(value, "identifier"@)) is None {
        Some(PromptError::MissingIdentifier)
    } else {
        None
    }
}

/// What is wrong with the first of some prompts with which something is.
pub open spec fn first_error(prompts: Seq<JsonView>, i: int) -> Option<PromptError>
    decreases prompts.len() - i,
{
    if i < 0 || i >= prompts.len() {
        None
    } else if prompt_error(prompts[i]) is Some {
        prompt_error(prompts[i])
    } else {
        first_error(prompts, i + 1)
    }
}

/// The last of some prompts with an identifier.
pub open spec fn last_named(prompts: Seq<JsonView>, name: Seq<char>) -> Option<JsonView>
    decreases prompts.len(),
{
    if prompts.len() == 0 {
        None
    } else if as_text(field(prompts.last(), "identifier"@)) == Some(name) {
        Some(prompts.last())
    } else {
        last_named(prompts.drop_last(), name)
    }
}

/// The prompts by identifier, the last one for each.
pub open spec fn are_prompts(
    prompts: Seq<(String, PresetPrompt)>,
    values: Seq<JsonView>,
) -> bool {
    &&& assoc::ascending(prompts)
    &&& forall|name: Seq<char>|
        match #[trigger] assoc::lookup(prompts, name) {
            Some(prompt) => last_named(values, name) is Some && is_prompt(
                prompt,
                last_named(values, name)->0,
            ),
            None => last_named(values, name) is None,
        }
}

fn parse_prompt(value: &Json) -> (r: Result<PresetPrompt, PromptError>)
    ensures
        match r {
            Ok(prompt) => prompt_error(value@) is None && is_prompt(prompt, value@),
            Err(e) => prompt_error(value@) == Some(e),
        },
{
    if value.members().is_none() {
        return Err(PromptError::InvalidPrompt);
    }
    let identifier: String = match value.get("identifier") {
        Some(v) => match v.text() {
            Some(t) => t.clone(),
            None => return Err(PromptError::MissingIdentifier),
        },
        None => return Err(PromptError::MissingIdentifier),
    };
    let position: Option<i64> = match value.get("injection_position") {
        Some(v) => v.signed(),
        None => None,
    };
    let in_chat_depth: Option<usize> = match position {
        Some(1) => Some(parse_number(value.get("injection_depth"))),
        _ => None,
    };
    Ok(
        PresetPrompt {
            identifier,
            role: parse_role(value.get("role")),
            content: string(value.get("content")),
            marker: bool_value(value.get("marker"), false),
            in_chat_depth,
            in_chat_order: parse_number(value.get("injection_order")),
        },
    )
}

/// The entry of an order list that speaks of a character.
pub open spec fn speaks_of(entry: JsonView, character_id: u64) -> bool {
    as_unsigned(field(entry, "character_id"@)) == Some(character_id)
}

/// The order that the first entry from place `i` on that speaks of a character
/// states.
pub open spec fn character_order(entries: Seq<JsonView>, character_id: u64, i: int) -> Option<
    Seq<JsonView>,
>
    decreases entries.len() - i,
{
    if i < 0 || i >= entries.len() {
        None
    } else if speaks_of(entries[i], character_id) {
        as_items(field(entries[i], "order"@))
    } else {
        character_order(entries, character_id, i + 1)
    }
}

/// The first order that an entry from place `i` on states.
pub open spec fn any_order(entries: Seq<JsonView>, i: int) -> Option<Seq<JsonView>>
    decreases entries.len() - i,
{
    if i < 0 || i >= entries.len() {
        None
    } else if as_items(field(entries[i], "order"@)) is Some {
        as_items(field(entries[i], "order"@))
    } else {
        any_order(entries, i + 1)
    }
}

/// The order that a preset states for a character: its own, or the first one,
/// or the list itself.
pub open spec fn stated_order(value: Option<JsonView>, character_id: u64) -> Seq<JsonView> {
    match value {
        Some(JsonView::Array(entries)) => match character_order(entries, character_id, 0) {
            Some(order) => order,
            None => match any_order(entries, 0) {
                Some(order) => order,
                None => entries,
            },
        },
        Some(other) => match as_items(field(other, "order"@)) {
            Some(order) => order,
            None => Seq::empty(),
        },
        None => Seq::empty(),
    }
}

/// The places of an order: those of its items that name one.
pub open spec fn places_of(items: Seq<JsonView>) -> Seq<OrderView>
    decreases items.len(),
{
    if items.len() == 0 {
        Seq::empty()
    } else {
        let head = places_of(items.drop_last());
        match as_text(field(items.last(), "identifier"@)) {
            Some(identifier) => head.push(
                OrderView { identifier, enabled: flag_or(field(items.last(), "enabled"@), true) },
            ),
            None => head,
        }
    }
}

fn order_of<'a>(entry: &'a Json) -> (order: Option<&'a Vec<Json>>)
    ensures
        match order {
            Some(items) => as_items(field(entry@, "order"@)) == Some(items_view(items@)),
            None => as_items(field(entry@, "order"@)) is None,
        },
{
    match entry.get("order") {
        Some(value) => value.items(),
        None => None,
    }
}

fn find_character_order<'a>(entries: &'a Vec<Json>, character_id: u64) -> (order: Option<
    &'a Vec<Json>,
>)
    ensures
        match order {
            Some(items) => character_order(items_view(entries@), character_id, 0) == Some(
                items_view(items@),
            ),
            None => character_order(items_view(entries@), character_id, 0) is None,
        },
{
    let ghost all = items_view(entries@);
    let mut i: usize = 0;
    while i < entries.len()
        invariant
            i <= entries@.len(),
            all == items_view(entries@),
            character_order(all, character_id, 0) == character_order(all, character_id, i as int),
        decreases entries@.len() - i,
    {
        proof {
            assert(all[i as int] == entries@[i as int]@);
        }
        let id: Option<u64> = match entries[i].get("character_id") {
            Some(value) => value.unsigned(),
            None => None,
        };
        let found = match id {
            Some(id) => id == character_id,
            None => false,
        };
        if found {
            return order_of(&entries[i]);
        }
        i = i + 1;
    }
    None
}

fn find_order<'a>(entries: &'a Vec<Json>, character_id: u64) -> (order: &'a Vec<Json>)
    ensures
        items_view(order@) == stated_order(
            Some(JsonView::Array(items_view(entries@))),
            character_id,
        ),
{
    let ghost all = items_view(entries@);
    if let Some(order) = find_character_order(entries, character_id) {
        return order;
    }
    let mut k: usize = 0;
    while k < entries.len()
        invariant
            k <= entries@.len(),
            all == items_view(entries@),
            character_order(all, character_id, 0) is None,
            any_order(all, 0) == any_order(all, k as int),
        decreases entries@.len() - k,
    {
        proof {
            assert(all[k as int] == entries@[k as int]@);
        }
        if let Some(order) = order_of(&entries[k]) {
            return order;
        }
        k = k + 1;
    }
    entries
}

fn push_places(items: &Vec<Json>) -> (order: Vec<PresetOrder>)
    ensures
        order_views(order@) == places_of(items_view(items@)),
{
    let ghost all = items_view(items@);
    let mut order: Vec<PresetOrder> = Vec::new();
    let mut i: usize = 0;
    proof {
        assert(order_views(order@) =~= Seq::<OrderView>::empty());
    }
    while i < items.len()
        invariant
            i <= items@.len(),
            all == items_view(items@),
            order_views(order@) == places_of(all.take(i as int)),
        decreases items@.len() - i,
    {
        proof {
            assert(all.take(i + 1).drop_last() =~= all.take(i as int));
            assert(all.take(i + 1).last() == items@[i as int]@);
        }
        let named = match items[i].get("identifier") {
            Some(value) => value.text(),
            None => None,
        };
        if let Some(identifier) = named {
            let ghost before = order@;
            let place = PresetOrder {
                identifier: identifier.clone(),
                enabled: bool_value(items[i].get("enabled"), true),
            };
            order.push(place);
            proof {
                assert(order_views(order@) =~= order_views(before).push(
                    OrderView { identifier: place.identifier@, enabled: place.enabled },
                ));
            }
        }
        i = i + 1;
    }
    proof {
        assert(all.take(items@.len() as int) =~= all);
    }
    order
}

pub(crate) fn parse_order(value: Option<&Json>, character_id: u64) -> (order: Vec<PresetOrder>)
    ensures
        order_views(order@) == places_of(stated_order(view_of(value), character_id)),
{
    if let Some(v) = value {
        if let Some(entries) = v.items() {
            return push_places(find_order(entries, character_id));
        }
        if let Some(items) = order_of(v) {
            return push_places(items);
        }
    }
    let order: Vec<PresetOrder> = Vec::new();
    proof {
        assert(order_views(order@) =~= Seq::<OrderView>::empty());
    }
    order
}

/// What reading a preset comes to.
pub open spec fn is_preset(
    r: Result<PromptPreset, PromptError>,
    value: JsonView,
    character_id: u64,
) -> bool {
    match as_items(field(value, "prompts"@)) {
        None => r == Err::<PromptPreset, PromptError>(PromptError::MissingPrompts),
        Some(prompts) => match r {
            Ok(preset) => {
                &&& first_error(prompts, 0) is None
                &&& are_prompts(preset.prompts@, prompts)
                &&& order_views(preset.order@) == places_of(
                    stated_order(field(value, "prompt_order"@), character_id),
                )
            },
            Err(e) => first_error(prompts, 0) == Some(e),
        },
    }
}

impl PromptPreset {
    /// Reads a preset, with the order that it states for a character.
    pub fn parse(value: &Json, character_id: u64) -> (r: Result<Self, PromptError>)
        ensures
            is_preset(r, value@, character_id),
    {
        let listed = match value.get("prompts") {
            Some(v) => v.items(),
            None => None,
        };
        let prompts = match listed {
            Some(items) => items,
            None => return Err(PromptError::MissingPrompts),
        };
        let ghost all = items_view(prompts@);
        let mut parsed: Vec<(String, PresetPrompt)> = Vec::new();
        let mut i: usize = 0;
        while i < prompts.len()
            invariant
                i <= prompts@.len(),
                all == items_view(prompts@),
                as_items(field(value@, "prompts"@)) == Some(all),
                first_error(all, 0) == first_error(all, i as int),
                are_prompts(parsed@, all.take(i as int)),
            decreases prompts@.len() - i,
        {
            proof {
                assert(all.take(i + 1).drop_last() =~= all.take(i as int));
                assert(all.take(i + 1).last() == prompts@[i as int]@);
                assert(all[i as int] == prompts@[i as int]@);
            }
            match parse_prompt(&prompts[i]) {
                Ok(prompt) => {
                    let ghost before = parsed@;
                    let name = prompt.identifier.clone();
                    proof {
                        assoc::lemma_with_entry_ascending(parsed@, name, prompt);
                        assert forall|other: Seq<char>| #[trigger]
                            assoc::lookup(
                                assoc::with_entry(before, name, prompt),
                                other,
                            ) == if other == name@ {
                                Some(prompt)
                            } else {
                                assoc::lookup(before, other)
                            } by {
                            assoc::lemma_with_entry_found(before, name, prompt, other);
                        }
                    }
                    assoc::set(&mut parsed, name, prompt);
                },
                Err(e) => return Err(e),
            }
            i = i + 1;
        }
        proof {
            assert(all.take(prompts@.len() as int) =~= all);
        }
        let order = parse_order(value.get("prompt_order"), character_id);
        Ok(PromptPreset { prompts: parsed, order })
    }
}

/// Of the prompts of one identifier the last one counts.
pub proof fn law_the_last_prompt_counts(values: Seq<JsonView>, name: Seq<char>, i: int)
    requires
        0 <= i < values.len(),
        as_text(field(values[i], "identifier"@)) == Some(name),
        forall|k: int|
            i < k < values.len() ==> as_text(field(#[trigger] values[k], "identifier"@)) != Some(
                name,
            ),
    ensures
        last_named(values, name) == Some(values[i]),
    decreases values.len(),
{
    if i < values.len() - 1 {
        assert(as_text(field(values[values.len() - 1], "identifier"@)) != Some(name));
        law_the_last_prompt_counts(values.drop_last(), name, i);
    }
}

/// A place comes from an item that names it, and is enabled unless the item says that
/// it is not.
pub open spec fn is_place_of(place: OrderView, item: JsonView) -> bool {
    &&& as_text(field(item, "identifier"@)) == Some(place.identifier)
    &&& place.enabled <==> field(item, "enabled"@) != Some(JsonView::Bool(false))
}

/// Every place of an order comes from an item of it.
pub proof fn law_places_come_from_items(items: Seq<JsonView>, k: int)
    requires
        0 <= k < places_of(items).len(),
    ensures
        exists|i: int| 0 <= i < items.len() && is_place_of(places_of(items)[k], #[trigger] items[i]),
    decreases items.len(),
{
    let rest = items.drop_last();
    let head = places_of(rest);
    if k < head.len() {
        law_places_come_from_items(rest, k);
        let i = choose|i: int| 0 <= i < rest.len() && is_place_of(head[k], #[trigger] rest[i]);
        assert(is_place_of(places_of(items)[k], items[i]));
    } else {
        assert(is_place_of(places_of(items)[k], items[items.len() - 1]));
    }
}

/// Every item of an order that names a place makes one, and one behind another makes
/// the later place.
pub proof fn law_items_make_places(items: Seq<JsonView>, item: JsonView, name: Seq<char>)
    requires
        as_text(field(item, "identifier"@)) == Some(name),
    ensures
        places_of(items.push(item)).len() == places_of(items).len() + 1,
        places_of(items.push(item)).drop_last() == places_of(items),
        is_place_of(places_of(items.push(item)).last(), item),
{
    assert(items.push(item).drop_last() =~= items);
    assert(places_of(items.push(item)).drop_last() =~= places_of(items));
}

proof fn lemma_character_order(entries: Seq<JsonView>, character_id: u64, from: int, i: int)
    requires
        0 <= from <= i < entries.len(),
        as_unsigned(field(entries[i], "character_id"@)) == Some(character_id),
        forall|k: int|
            from <= k < i ==> as_unsigned(field(#[trigger] entries[k], "character_id"@)) != Some(
                character_id,
            ),
    ensures
        character_order(entries, character_id, from) == as_items(field(entries[i], "order"@)),
    decreases i - from,
{
    if from < i {
        assert(as_unsigned(field(entries[from], "character_id"@)) != Some(character_id));
        lemma_character_order(entries, character_id, from + 1, i);
    }
}

/// The order that a preset states for a character is that of the first entry that
/// speaks of it.
pub proof fn law_the_characters_own_order_counts(
    entries: Seq<JsonView>,
    character_id: u64,
    i: int,
    order: Seq<JsonView>,
)
    requires
        0 <= i < entries.len(),
        as_unsigned(field(entries[i], "character_id"@)) == Some(character_id),
        as_items(field(entries[i], "order"@)) == Some(order),
        forall|k: int|
            0 <= k < i ==> as_unsigned(field(#[trigger] entries[k], "character_id"@)) != Some(
                character_id,
            ),
    ensures
        stated_order(Some(JsonView::Array(entries)), character_id) == order,
{
    lemma_character_order(entries, character_id, 0, i);
}

proof fn lemma_no_character(entries: Seq<JsonView>, character_id: u64, from: int)
    requires
        0 <= from <= entries.len(),
        forall|k: int|
            from <= k < entries.len() ==> as_unsigned(
                field(#[trigger] entries[k], "character_id"@),
            ) != Some(character_id),
    ensures
        character_order(entries, character_id, from) is None,
    decreases entries.len() - from,
{
    if from < entries.len() {
        assert(as_unsigned(field(entries[from], "character_id"@)) != Some(character_id));
        lemma_no_character(entries, character_id, from + 1);
    }
}

proof fn lemma_any_order(entries: Seq<JsonView>, from: int, i: int)
    requires
        0 <= from <= i < entries.len(),
        as_items(field(entries[i], "order"@)) is Some,
        forall|k: int|
            from <= k < i ==> as_items(field(#[trigger] entries[k], "order"@)) is None,
    ensures
        any_order(entries, from) == as_items(field(entries[i], "order"@)),
    decreases i - from,
{
    if from < i {
        assert(as_items(field(entries[from], "order"@)) is None);
        lemma_any_order(entries, from + 1, i);
    }
}

/// Where no entry speaks of a character the first order that any entry states counts.
pub proof fn law_the_first_order_counts_for_others(
    entries: Seq<JsonView>,
    character_id: u64,
    i: int,
    order: Seq<JsonView>,
)
    requires
        0 <= i < entries.len(),
        as_items(field(entries[i], "order"@)) == Some(order),
        forall|k: int|
            0 <= k < entries.len() ==> as_unsigned(
                field(#[trigger] entries[k], "character_id"@),
            ) != Some(character_id),
        forall|k: int| 0 <= k < i ==> as_items(field(#[trigger] entries[k], "order"@)) is None,
    ensures
        stated_order(Some(JsonView::Array(entries)), character_id) == order,
{
    lemma_no_character(entries, character_id, 0);
    lemma_any_order(entries, 0, i);
}

} // verus!

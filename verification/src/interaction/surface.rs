//! Declared interactions as a session shows them.
use vstd::prelude::*;

use crate::assoc;
use crate::identity::{
    canonical_hash_of, canonical_json_hash, ContentHash, EntityId, hash_text, ulid_text_of,
};
use crate::interaction::declaration::{
    actions_error, Annotation, declaration_error, DeclaredAction, DeclaredGroup, given, grouped,
    InteractionDeclaration, InteractionSupport, is_declaration,
};
use crate::interaction::schema::{
    bounded, check_bounds, check_kind, ChoiceSource, DeclaredChoice, DeclaredField, DeclaredList,
    field_message, field_text, FieldKind, has_kind, in_bounds, InteractionControl, number_view,
    refuses, ResourceKind,
};
use crate::interaction::settings::{
    are_settings, effective_settings, setting_in_force, settings_error,
};
use crate::interaction::value::{
    InteractionValue, lemma_value_ordered, recorded_value, representable, value_json,
};
use crate::json::{
    array, equal_json, exact, find_member, items_view, Json, JsonNumber, JsonNumberView, JsonView,
    lemma_member_ordered, lemma_object_of_exact, lemma_object_view, member, members_view, named,
    no_items, no_pairs, object, object_of, optional_pair, ordered, push_item, push_optional,
    push_pair, push_text,
};
use crate::plugin::{
    has_capability, InstalledPlugin, is_within, PluginCapability, PluginError, PluginManifest,
    within,
};
use crate::text::{self, at_most, lemma_views_push, option_view, views};

verus! {

pub const SURFACE_DOMAIN: &'static str = "stcli:interaction-surface:v1";

pub const TARGET_DOMAIN: &'static str = "stcli:interaction-target:v1";

pub const REVISION_DOMAIN: &'static str = "stcli:interaction-revision:v1";

/// The JSON value that a surface is identified by.
pub open spec fn surface_json(
    session_id: EntityId,
    branch_id: Option<EntityId>,
    manifest: PluginManifest,
    declaration: InteractionDeclaration,
) -> JsonView {
    JsonView::Object(
        object_of(
            named()
                .push(("session_id"@, JsonView::Text(ulid_text_of(session_id@))))
                .push(("branch_id"@, optional_id_json(branch_id)))
                .push(("extension_id"@, JsonView::Text(manifest.id@)))
                .push(("package_version"@, JsonView::Text(manifest.version@)))
                .push((
                    "component_sha256"@,
                    JsonView::Text(hash_text(manifest.component_sha256@)),
                ))
                .push(("declaration_hash"@, JsonView::Text(hash_text(declaration.hash@))))
                .push(("declaration_id"@, JsonView::Text(declaration.id@))),
        ),
    )
}

/// The JSON value of an optional identity.
pub open spec fn optional_id_json(id: Option<EntityId>) -> JsonView {
    match id {
        Some(i) => JsonView::Text(ulid_text_of(i@)),
        None => JsonView::Null,
    }
}

/// The digest of a JSON value whose members are texts or null.
fn hash_texts(domain: &str, pairs: Vec<(String, Json)>) -> (hash: ContentHash)
    requires
        forall|i: int|
            0 <= i < pairs@.len() ==> exact((#[trigger] members_view(pairs@)[i]).1),
    ensures
        canonical_hash_of(
            domain@,
            JsonView::Object(object_of(members_view(pairs@))),
        ) == Some(hash@),
{
    proof {
        lemma_object_of_exact(members_view(pairs@));
    }
    let value = object(pairs);
    match canonical_json_hash(domain, &value) {
        Ok(hash) => hash,
        Err(_) => {
            proof {
                assert(false);
            }
            ContentHash::new([0u8; 32])
        },
    }
}

/// The identity of a declaration's surface in a session.
pub fn surface_id(
    session_id: EntityId,
    branch_id: Option<EntityId>,
    installed: &InstalledPlugin,
    declaration: &InteractionDeclaration,
) -> (hash: ContentHash)
    ensures
        canonical_hash_of(
            SURFACE_DOMAIN@,
            surface_json(session_id, branch_id, installed.manifest, *declaration),
        ) == Some(hash@),
{
    let mut pairs = no_pairs();
    push_text(&mut pairs, "session_id", session_id.text().as_str());
    push_pair(
        &mut pairs,
        "branch_id",
        match branch_id {
            Some(id) => Json::Text(id.text()),
            None => Json::Null,
        },
    );
    push_text(&mut pairs, "extension_id", installed.manifest.id.as_str());
    push_text(&mut pairs, "package_version", installed.manifest.version.as_str());
    push_text(
        &mut pairs,
        "component_sha256",
        installed.manifest.component_sha256.text().as_str(),
    );
    push_text(&mut pairs, "declaration_hash", declaration.hash.text().as_str());
    push_text(&mut pairs, "declaration_id", declaration.id.as_str());
    hash_texts(SURFACE_DOMAIN, pairs)
}

/// The JSON value that a setting or action of a surface is identified by.
pub open spec fn target_json(surface: Seq<u8>, category: Seq<char>, id: Seq<char>) -> JsonView {
    JsonView::Object(
        object_of(
            named()
                .push(("surface_id"@, JsonView::Text(hash_text(surface))))
                .push(("category"@, JsonView::Text(category)))
                .push(("id"@, JsonView::Text(id))),
        ),
    )
}

/// The identity of a setting or action of a surface.
pub open spec fn is_target(
    target: ContentHash,
    surface: ContentHash,
    category: Seq<char>,
    id: Seq<char>,
) -> bool {
    canonical_hash_of(TARGET_DOMAIN@, target_json(surface@, category, id)) == Some(target@)
}

/// The identity of a setting or action of a surface.
pub fn target_id(surface: &ContentHash, category: &str, local_id: &str) -> (hash: ContentHash)
    ensures
        is_target(hash, *surface, category@, local_id@),
{
    let mut pairs = no_pairs();
    push_text(&mut pairs, "surface_id", surface.text().as_str());
    push_text(&mut pairs, "category", category);
    push_text(&mut pairs, "id", local_id);
    hash_texts(TARGET_DOMAIN, pairs)
}

/// A choice that a surface offers.
#[derive(Debug, Eq, PartialEq)]
pub struct InteractionChoice {
    pub value: InteractionValue,
    pub label: String,
    pub available: bool,
}

/// What a value of a setting has to meet.
#[derive(Debug, Eq, PartialEq)]
pub struct InteractionConstraints {
    pub integer: bool,
    pub minimum: Option<JsonNumber>,
    pub maximum: Option<JsonNumber>,
}

/// A field of list items on a surface.
#[derive(Clone, Debug, Eq, PartialEq)]
pub struct InteractionListField {
    pub property: String,
    pub label: String,
    pub control: InteractionControl,
}

/// The items of an ordered list on a surface.
#[derive(Clone, Debug, Eq, PartialEq)]
pub struct InteractionList {
    pub fields: Vec<InteractionListField>,
}

/// A setting on a surface.
#[derive(Debug, Eq, PartialEq)]
pub struct InteractionField {
    pub target: ContentHash,
    pub label: String,
    pub help: String,
    pub control: InteractionControl,
    pub value: Option<InteractionValue>,
    pub constraints: InteractionConstraints,
    pub choices: Vec<InteractionChoice>,
    pub visible: bool,
    pub enabled: bool,
    pub unavailable_reason: Option<String>,
    pub list: Option<InteractionList>,
    pub error: Option<String>,
}

/// A group of settings on a surface.
#[derive(Debug, Eq, PartialEq)]
pub struct InteractionGroup {
    pub label: String,
    pub help: String,
    pub fields: Vec<InteractionField>,
}

/// An action on a surface.
#[derive(Clone, Debug, Eq, PartialEq)]
pub struct InteractionAction {
    pub target: ContentHash,
    pub label: String,
    pub help: String,
    pub support: InteractionSupport,
    pub support_reason: Option<String>,
    pub enabled: bool,
    pub unavailable_reason: Option<String>,
}

/// What a surface was made for.
#[derive(Clone, Debug, Eq, PartialEq)]
pub struct InteractionIdentity {
    pub session_id: EntityId,
    pub branch_id: Option<EntityId>,
    pub extension_id: String,
    pub package_version: String,
    pub component_sha256: ContentHash,
    pub declaration_hash: ContentHash,
    pub surface_id: ContentHash,
}

/// A declared interaction as one session shows it.
#[derive(Debug, Eq, PartialEq)]
pub struct InteractionSurface {
    pub identity: InteractionIdentity,
    pub revision: ContentHash,
    pub support: InteractionSupport,
    pub support_reason: Option<String>,
    pub label: String,
    pub help: String,
    pub groups: Vec<InteractionGroup>,
    pub save: InteractionAction,
    pub actions: Vec<InteractionAction>,
}

/// The value, label and availability of each choice.
pub open spec fn choices_view(choices: Seq<InteractionChoice>) -> Seq<(JsonView, Seq<char>, bool)> {
    Seq::new(
        choices.len(),
        |i: int| (value_json(choices[i].value), choices[i].label@, choices[i].available),
    )
}

/// A refused manifest as it is shown.
pub open spec fn shown_refusal(message: Seq<char>) -> Seq<char> {
    at_most("invalid plugin manifest: "@ + at_most(message, 256), 256)
}

fn show_refusal(property: &str, tail: &str) -> (r: String)
    ensures
        r@ == shown_refusal(field_message(property@, tail@)),
{
    let mut message = "interaction field '".to_owned();
    message.push_str(property);
    message.push_str(tail);
    let mut shown = "invalid plugin manifest: ".to_owned();
    shown.push_str(bounded(message).as_str());
    bounded(shown)
}

/// The controls that offer choices.
pub open spec fn selects(control: InteractionControl) -> bool {
    control == InteractionControl::Choice || control == InteractionControl::ResourceSelector
}

/// A value is equal to one of the available choices.
pub open spec fn is_choice(value: JsonView, choices: Seq<(JsonView, Seq<char>, bool)>) -> bool {
    exists|i: int|
        0 <= i < choices.len() && equal_json((#[trigger] choices[i]).0, value) && choices[i].2
}

/// Every member of a list item but its identity is a declared field, and there
/// are as many as there are fields.
pub open spec fn item_fits(list: DeclaredList, members: Seq<(Seq<char>, JsonView)>) -> bool {
    &&& members.len() == list.fields@.len() + 1
    &&& forall|k: int|
        0 <= k < members.len() ==> (#[trigger] members[k]).0 == list.item_id@ || has_list_field(
            list,
            members[k].0,
        )
}

/// A list declares a field of a name.
pub open spec fn has_list_field(list: DeclaredList, name: Seq<char>) -> bool {
    exists|f: int| 0 <= f < list.fields@.len() && (#[trigger] list.fields@[f]).property@ == name
}

/// Why a declared field of a list item, from the one at `from` on, is refused.
pub open spec fn item_fields_error(
    list: DeclaredList,
    members: Seq<(Seq<char>, JsonView)>,
    from: int,
) -> Option<Seq<char>>
    decreases list.fields@.len() - from,
{
    if from < 0 || from >= list.fields@.len() {
        None
    } else {
        let declared = list.fields@[from];
        let value = member(members, declared.property@);
        if value is None {
            Some("Ordered list item is missing '"@ + declared.label@ + "'"@)
        } else if !has_kind(declared.kind, value->0) {
            Some(
                shown_refusal(
                    field_message(declared.property@, "' value does not match its type"@),
                ),
            )
        } else {
            item_fields_error(list, members, from + 1)
        }
    }
}

/// Why one item of an ordered list is refused, where `seen` are the identities
/// of earlier ones.
pub open spec fn item_error(list: DeclaredList, item: JsonView, seen: Seq<Seq<char>>) -> Option<
    Seq<char>,
> {
    match item {
        JsonView::Object(members) => {
            let id = field_text(members, list.item_id@);
            if id is None {
                Some("Ordered list item identity is missing"@)
            } else if seen.contains(id->0) {
                Some("Ordered list item identities must be unique"@)
            } else if !item_fits(list, members) {
                Some("Ordered list item fields do not match the declaration"@)
            } else {
                item_fields_error(list, members, 0)
            }
        },
        _ => Some("Ordered list items must be objects"@),
    }
}

/// Why an item of an ordered list, from the one at `from` on, is refused, where
/// `seen` are the identities of earlier ones.
pub open spec fn items_error(
    list: DeclaredList,
    items: Seq<JsonView>,
    seen: Seq<Seq<char>>,
    from: int,
) -> Option<Seq<char>>
    decreases items.len() - from,
{
    if from < 0 || from >= items.len() {
        None
    } else if item_error(list, items[from], seen) is Some {
        item_error(list, items[from], seen)
    } else {
        items_error(
            list,
            items,
            seen.push(field_text(items[from]->Object_0, list.item_id@)->0),
            from + 1,
        )
    }
}

/// Why the value of an ordered list is refused.
pub open spec fn ordered_list_error(list: DeclaredList, value: JsonView) -> Option<Seq<char>> {
    match value {
        JsonView::Array(items) => items_error(list, items, Seq::empty(), 0),
        _ => Some("Ordered list value must be an array"@),
    }
}

/// Why a value of a setting is refused.
pub open spec fn value_error(
    declared: DeclaredField,
    value: JsonView,
    choices: Seq<(JsonView, Seq<char>, bool)>,
) -> Option<Seq<char>> {
    if !has_kind(declared.kind, value) {
        Some(
            shown_refusal(
                field_message(declared.property@, "' value does not match its type"@),
            ),
        )
    } else if !in_bounds(
        declared.kind,
        value,
        number_view(declared.minimum),
        number_view(declared.maximum),
    ) {
        Some(
            shown_refusal(
                field_message(declared.property@, "' default is outside its bounds"@),
            ),
        )
    } else if selects(declared.control) && !representable(value) {
        Some("Value must be scalar"@)
    } else if selects(declared.control) && !is_choice(value, choices) {
        Some("Value is not an available choice"@)
    } else if declared.control == InteractionControl::OrderedList {
        ordered_list_error(declared.list->0, value)
    } else {
        None
    }
}

fn check_item_fits(list: &DeclaredList, members: &Vec<(String, Json)>) -> (r: bool)
    ensures
        r == item_fits(*list, members_view(members@)),
{
    if members.len() == 0 || members.len() - 1 != list.fields.len() {
        return false;
    }
    let ghost m = members_view(members@);
    let mut k: usize = 0;
    while k < members.len()
        invariant
            k <= members@.len(),
            m == members_view(members@),
            forall|j: int|
                0 <= j < k ==> (#[trigger] m[j]).0 == list.item_id@ || has_list_field(
                    *list,
                    m[j].0,
                ),
        decreases members@.len() - k,
    {
        proof {
            assert(m[k as int].0 == members@[k as int].0@);
        }
        if !text::same(members[k].0.as_str(), list.item_id.as_str()) {
            let mut f: usize = 0;
            let mut found = false;
            while f < list.fields.len()
                invariant
                    f <= list.fields@.len(),
                    k < members@.len(),
                    found == exists|j: int|
                        0 <= j < f && (#[trigger] list.fields@[j]).property@
                            == members@[k as int].0@,
                decreases list.fields@.len() - f,
            {
                if text::same(list.fields[f].property.as_str(), members[k].0.as_str()) {
                    found = true;
                }
                f = f + 1;
            }
            if !found {
                proof {
                    assert(!has_list_field(*list, m[k as int].0));
                }
                return false;
            }
        }
        k = k + 1;
    }
    true
}

fn check_item(list: &DeclaredList, item: &Json, seen: &Vec<String>) -> (r: Result<String, String>)
    ensures
        match r {
            Ok(id) => item_error(*list, item@, views(seen@)) is None && item@ is Object
                && field_text(item@->Object_0, list.item_id@) == Some(id@),
            Err(message) => item_error(*list, item@, views(seen@)) == Some(message@),
        },
{
    let members = match item.members() {
        Some(members) => members,
        None => {
            return Err("Ordered list items must be objects".to_owned());
        },
    };
    let ghost m = members_view(members@);
    let id = match find_member(members, list.item_id.as_str()) {
        Some(Json::Text(id)) => {
            if text::is_blank(id.as_str()) {
                return Err("Ordered list item identity is missing".to_owned());
            }
            id
        },
        _ => {
            return Err("Ordered list item identity is missing".to_owned());
        },
    };
    if text::contains_text(seen, id.as_str()) {
        return Err("Ordered list item identities must be unique".to_owned());
    }
    if !check_item_fits(list, members) {
        return Err("Ordered list item fields do not match the declaration".to_owned());
    }
    let mut f: usize = 0;
    while f < list.fields.len()
        invariant
            f <= list.fields@.len(),
            m == members_view(members@),
            item_fields_error(*list, m, 0) == item_fields_error(*list, m, f as int),
            item_error(*list, item@, views(seen@)) == item_fields_error(*list, m, 0),
        decreases list.fields@.len() - f,
    {
        let declared = &list.fields[f];
        match find_member(members, declared.property.as_str()) {
            None => {
                let mut message = "Ordered list item is missing '".to_owned();
                message.push_str(declared.label.as_str());
                message.push_str("'");
                return Err(message);
            },
            Some(value) => {
                if !check_kind(declared.kind, value) {
                    return Err(
                        show_refusal(
                            declared.property.as_str(),
                            "' value does not match its type",
                        ),
                    );
                }
            },
        }
        f = f + 1;
    }
    Ok(id.clone())
}

fn validate_ordered_list(list: &DeclaredList, value: &Json) -> (r: Result<(), String>)
    ensures
        match r {
            Ok(_) => ordered_list_error(*list, value@) is None,
            Err(message) => ordered_list_error(*list, value@) == Some(message@),
        },
{
    let items = match value.items() {
        Some(items) => items,
        None => {
            return Err("Ordered list value must be an array".to_owned());
        },
    };
    let ghost v = items_view(items@);
    let mut seen: Vec<String> = Vec::new();
    let mut i: usize = 0;
    proof {
        assert(views(seen@) =~= Seq::<Seq<char>>::empty());
    }
    while i < items.len()
        invariant
            i <= items@.len(),
            v == items_view(items@),
            ordered_list_error(*list, value@) == items_error(*list, v, views(seen@), i as int),
        decreases items@.len() - i,
    {
        proof {
            assert(v[i as int] == items@[i as int]@);
        }
        match check_item(list, &items[i], &seen) {
            Ok(id) => {
                proof {
                    lemma_views_push(seen@, id);
                }
                seen.push(id);
            },
            Err(message) => {
                return Err(message);
            },
        }
        i = i + 1;
    }
    Ok(())
}

fn find_choice(choices: &Vec<InteractionChoice>, value: &Json, only_available: bool) -> (r: bool)
    ensures
        r == exists|i: int|
            0 <= i < choices@.len() && equal_json(
                (#[trigger] choices_view(choices@)[i]).0,
                value@,
            ) && (only_available ==> choices_view(choices@)[i].2),
{
    let ghost v = choices_view(choices@);
    let mut i: usize = 0;
    while i < choices.len()
        invariant
            i <= choices@.len(),
            v == choices_view(choices@),
            forall|j: int|
                0 <= j < i ==> !(equal_json((#[trigger] v[j]).0, value@) && (only_available
                    ==> v[j].2)),
        decreases choices@.len() - i,
    {
        proof {
            assert(v[i as int].0 == value_json(choices@[i as int].value));
        }
        if choices[i].value.to_json().same(value) && (!only_available || choices[i].available) {
            return true;
        }
        i = i + 1;
    }
    false
}

/// Checks a value of a setting against its declaration and choices.
pub fn validate_field_value(
    declared: &DeclaredField,
    value: &Json,
    choices: &Vec<InteractionChoice>,
) -> (r: Result<(), String>)
    requires
        ordered(value@),
        declared.control == InteractionControl::OrderedList ==> declared.list is Some,
    ensures
        match r {
            Ok(_) => value_error(*declared, value@, choices_view(choices@)) is None,
            Err(message) => value_error(*declared, value@, choices_view(choices@)) == Some(
                message@,
            ),
        },
{
    if !check_kind(declared.kind, value) {
        return Err(
            show_refusal(declared.property.as_str(), "' value does not match its type"),
        );
    }
    if !check_bounds(declared.kind, value, &declared.minimum, &declared.maximum) {
        return Err(
            show_refusal(declared.property.as_str(), "' default is outside its bounds"),
        );
    }
    if declared.control == InteractionControl::Choice || declared.control
        == InteractionControl::ResourceSelector {
        if InteractionValue::from_json(value).is_none() {
            return Err("Value must be scalar".to_owned());
        }
        if !find_choice(choices, value, true) {
            return Err("Value is not an available choice".to_owned());
        }
    }
    if declared.control == InteractionControl::OrderedList {
        match &declared.list {
            Some(list) => {
                return validate_ordered_list(list, value);
            },
            None => {},
        }
    }
    Ok(())
}

/// Checks an edited value of a setting.
pub fn validate_edit(
    declared: &DeclaredField,
    value: &InteractionValue,
    choices: &Vec<InteractionChoice>,
) -> (r: Result<(), String>)
    requires
        declared.control == InteractionControl::OrderedList ==> declared.list is Some,
    ensures
        match r {
            Ok(_) => value_error(*declared, value_json(*value), choices_view(choices@)) is None,
            Err(message) => value_error(
                *declared,
                value_json(*value),
                choices_view(choices@),
            ) == Some(message@),
        },
{
    proof {
        lemma_value_ordered(*value);
    }
    let json = value.to_json();
    validate_field_value(declared, &json, choices)
}

/// What a surface is made from. Provider profiles and characters are what the
/// selectors of the surface offer, a character by its reference and label.
pub struct SurfaceBuild<'a> {
    pub session_id: EntityId,
    pub branch_id: Option<EntityId>,
    pub configuration_revision: &'a ContentHash,
    pub installed: &'a InstalledPlugin,
    pub declaration: &'a InteractionDeclaration,
    pub pinned_settings: &'a Json,
    pub persisted_settings: &'a Json,
    pub enabled: bool,
    pub capabilities: &'a Vec<PluginCapability>,
    pub provider_profiles: &'a Vec<String>,
    pub characters: &'a Vec<(ContentHash, String)>,
    pub completed_attempt: bool,
    pub scripting: bool,
}

/// Each profile as a choice.
pub open spec fn profile_choices(profiles: Seq<String>) -> Seq<(JsonView, Seq<char>, bool)> {
    Seq::new(profiles.len(), |i: int| (JsonView::Text(profiles[i]@), profiles[i]@, true))
}

/// Each character as a choice.
pub open spec fn character_choices(characters: Seq<(ContentHash, String)>) -> Seq<
    (JsonView, Seq<char>, bool),
> {
    Seq::new(
        characters.len(),
        |i: int| (JsonView::Text(hash_text(characters[i].0@)), characters[i].1@, true),
    )
}

/// Each listed choice as a choice.
pub open spec fn listed_choices(choices: Seq<DeclaredChoice>) -> Seq<
    (JsonView, Seq<char>, bool),
> {
    Seq::new(choices.len(), |i: int| (value_json(choices[i].value), choices[i].label@, true))
}

/// The choices that a setting offers: the listed ones, those of its source and
/// those of its resource.
pub open spec fn offered(
    declared: DeclaredField,
    profiles: Seq<String>,
    characters: Seq<(ContentHash, String)>,
) -> Seq<(JsonView, Seq<char>, bool)> {
    let listed = listed_choices(declared.choices@);
    let sourced = match declared.choice_source {
        Some(ChoiceSource::ProviderProfiles) => listed.push(
            (JsonView::Text(Seq::empty()), "Use Session provider"@, true),
        ) + profile_choices(profiles),
        None => listed,
    };
    match declared.resource {
        Some(ResourceKind::Characters) => sourced + character_choices(characters),
        Some(ResourceKind::ProviderProfiles) => sourced + profile_choices(profiles),
        None => sourced,
    }
}

/// A text is selected that is not among the choices.
pub open spec fn selects_missing(
    declared: DeclaredField,
    value: JsonView,
    choices: Seq<(JsonView, Seq<char>, bool)>,
) -> bool {
    &&& selects(declared.control)
    &&& value is Text
    &&& (value->Text_0).len() > 0
    &&& forall|i: int| 0 <= i < choices.len() ==> (#[trigger] choices[i]).0 != value
}

/// The choices that are shown: those that are offered, and a selected text that
/// is not among them as one that is not available.
pub open spec fn shown_choices(
    declared: DeclaredField,
    value: JsonView,
    choices: Seq<(JsonView, Seq<char>, bool)>,
) -> Seq<(JsonView, Seq<char>, bool)> {
    if selects_missing(declared, value, choices) {
        choices.push((value, value->Text_0 + " (unavailable)"@, false))
    } else {
        choices
    }
}

/// What is shown to be wrong with a value.
pub open spec fn shown_error(
    declared: DeclaredField,
    value: JsonView,
    choices: Seq<(JsonView, Seq<char>, bool)>,
) -> Option<Seq<char>> {
    if selects_missing(declared, value, choices) {
        Some("Selected resource is not available"@)
    } else {
        value_error(declared, value, choices)
    }
}

/// The first of two reasons that is given.
pub open spec fn first_reason(a: Option<Seq<char>>, b: Option<Seq<char>>) -> Option<Seq<char>> {
    match a {
        Some(_) => a,
        None => b,
    }
}

/// A reason where a condition holds.
pub open spec fn reason_if(condition: bool, reason: Seq<char>) -> Option<Seq<char>> {
    if condition {
        Some(reason)
    } else {
        None
    }
}

/// The reason for support that is not executable.
pub open spec fn support_reason_of(
    support: InteractionSupport,
    reason: Option<String>,
) -> Option<Seq<char>> {
    if support.executable() {
        None
    } else {
        option_view(reason)
    }
}

/// Whether settings can be saved.
pub open spec fn can_save(
    declaration: InteractionDeclaration,
    enabled: bool,
    capabilities: Seq<PluginCapability>,
) -> bool {
    declaration.support.executable() && enabled && capabilities.contains(
        PluginCapability::WriteOwnState,
    )
}

/// Why settings cannot be saved.
pub open spec fn save_reason(
    declaration: InteractionDeclaration,
    enabled: bool,
    capabilities: Seq<PluginCapability>,
) -> Option<Seq<char>> {
    first_reason(
        support_reason_of(declaration.support, declaration.support_reason),
        first_reason(
            reason_if(!enabled, "Extension is disabled"@),
            reason_if(
                !capabilities.contains(PluginCapability::WriteOwnState),
                "Extension does not grant write-own-state"@,
            ),
        ),
    )
}

/// Why an action cannot be run.
pub open spec fn action_reason(
    declaration: InteractionDeclaration,
    action: DeclaredAction,
    enabled: bool,
    capabilities: Seq<PluginCapability>,
    has_branch: bool,
    completed_attempt: bool,
    scripting: bool,
) -> Option<Seq<char>> {
    first_reason(
        support_reason_of(action.support, action.support_reason),
        first_reason(
            support_reason_of(declaration.support, declaration.support_reason),
            first_reason(
                reason_if(!enabled, "Extension is disabled"@),
                first_reason(
                    reason_if(
                        !within(action.capabilities@, capabilities),
                        "Extension action capabilities are not granted"@,
                    ),
                    first_reason(
                        reason_if(
                            action.requires_branch && !has_branch,
                            "Action requires a Branch"@,
                        ),
                        first_reason(
                            reason_if(
                                action.requires_completed_attempt && !completed_attempt,
                                "Action requires a completed Primary Attempt"@,
                            ),
                            reason_if(
                                !scripting,
                                "Extension execution requires scripting support"@,
                            ),
                        ),
                    ),
                ),
            ),
        ),
    )
}

/// The fields of list items that are shown.
pub open spec fn shows_list(shown: Option<InteractionList>, declared: Option<DeclaredList>) -> bool {
    match (shown, declared) {
        (None, None) => true,
        (Some(s), Some(d)) => s.fields@.len() == d.fields@.len() && forall|i: int|
            0 <= i < s.fields@.len() ==> (#[trigger] s.fields@[i]).property@
                == d.fields@[i].property@ && s.fields@[i].label@ == d.fields@[i].label@
                && s.fields@[i].control == d.fields@[i].control,
        _ => false,
    }
}

/// A surface shows a setting with the value in force.
pub open spec fn shows_field(
    shown: InteractionField,
    surface: ContentHash,
    declared: DeclaredField,
    property: Seq<char>,
    value: JsonView,
    profiles: Seq<String>,
    characters: Seq<(ContentHash, String)>,
    enabled: bool,
    reason: Option<Seq<char>>,
) -> bool {
    let choices = offered(declared, profiles, characters);
    &&& is_target(shown.target, surface, "field"@, property)
    &&& shown.label@ == declared.label@
    &&& shown.help@ == declared.help@
    &&& shown.control == declared.control
    &&& shown.value is Some <==> representable(value)
    &&& shown.value is Some ==> value_json(shown.value->0) == value
    &&& shown.constraints.integer == (declared.kind == FieldKind::Integer)
    &&& number_view(shown.constraints.minimum) == number_view(declared.minimum)
    &&& number_view(shown.constraints.maximum) == number_view(declared.maximum)
    &&& choices_view(shown.choices@) == shown_choices(declared, value, choices)
    &&& shown.visible
    &&& shown.enabled == enabled
    &&& option_view(shown.unavailable_reason) == reason
    &&& shows_list(shown.list, declared.list)
    &&& option_view(shown.error) == shown_error(declared, value, choices)
}

fn push_choice(
    choices: &mut Vec<InteractionChoice>,
    value: InteractionValue,
    label: &str,
    available: bool,
)
    ensures
        choices_view(final(choices)@) == choices_view(old(choices)@).push(
            (value_json(value), label@, available),
        ),
{
    let ghost before = choices@;
    choices.push(InteractionChoice { value, label: label.to_owned(), available });
    proof {
        assert forall|i: int| 0 <= i < before.len() implies choices_view(choices@)[i]
            == choices_view(before)[i] by {
            assert(choices@[i] == before[i]);
        }
        assert(choices_view(choices@) =~= choices_view(before).push(
            (value_json(value), label@, available),
        ));
    }
}

fn push_profiles(choices: &mut Vec<InteractionChoice>, profiles: &Vec<String>)
    ensures
        choices_view(final(choices)@) == choices_view(old(choices)@) + profile_choices(profiles@),
{
    let ghost before = choices_view(choices@);
    let ghost all = profile_choices(profiles@);
    let mut i: usize = 0;
    proof {
        assert(before + all.take(0) =~= before);
    }
    while i < profiles.len()
        invariant
            i <= profiles@.len(),
            all == profile_choices(profiles@),
            choices_view(choices@) == before + all.take(i as int),
        decreases profiles@.len() - i,
    {
        push_choice(
            choices,
            InteractionValue::Text(profiles[i].clone()),
            profiles[i].as_str(),
            true,
        );
        i = i + 1;
        proof {
            assert(all.take(i as int) =~= all.take(i - 1).push(all[i - 1]));
            assert(choices_view(choices@) =~= before + all.take(i as int));
        }
    }
    proof {
        assert(all.take(all.len() as int) =~= all);
    }
}

fn push_characters(
    choices: &mut Vec<InteractionChoice>,
    characters: &Vec<(ContentHash, String)>,
)
    ensures
        choices_view(final(choices)@) == choices_view(old(choices)@) + character_choices(
            characters@,
        ),
{
    let ghost before = choices_view(choices@);
    let ghost all = character_choices(characters@);
    let mut i: usize = 0;
    proof {
        assert(before + all.take(0) =~= before);
    }
    while i < characters.len()
        invariant
            i <= characters@.len(),
            all == character_choices(characters@),
            choices_view(choices@) == before + all.take(i as int),
        decreases characters@.len() - i,
    {
        push_choice(
            choices,
            InteractionValue::Text(characters[i].0.text()),
            characters[i].1.as_str(),
            true,
        );
        i = i + 1;
        proof {
            assert(all.take(i as int) =~= all.take(i - 1).push(all[i - 1]));
            assert(choices_view(choices@) =~= before + all.take(i as int));
        }
    }
    proof {
        assert(all.take(all.len() as int) =~= all);
    }
}

fn offer(
    declared: &DeclaredField,
    profiles: &Vec<String>,
    characters: &Vec<(ContentHash, String)>,
) -> (choices: Vec<InteractionChoice>)
    ensures
        choices_view(choices@) == offered(*declared, profiles@, characters@),
{
    let mut choices: Vec<InteractionChoice> = Vec::new();
    let ghost listed = listed_choices(declared.choices@);
    let mut i: usize = 0;
    proof {
        assert(choices_view(choices@) =~= listed.take(0));
    }
    while i < declared.choices.len()
        invariant
            i <= declared.choices@.len(),
            listed == listed_choices(declared.choices@),
            choices_view(choices@) == listed.take(i as int),
        decreases declared.choices@.len() - i,
    {
        push_choice(
            &mut choices,
            declared.choices[i].value.copy(),
            declared.choices[i].label.as_str(),
            true,
        );
        i = i + 1;
        proof {
            assert(listed.take(i as int) =~= listed.take(i - 1).push(listed[i - 1]));
        }
    }
    proof {
        assert(listed.take(listed.len() as int) =~= listed);
    }
    match declared.choice_source {
        Some(ChoiceSource::ProviderProfiles) => {
            push_choice(
                &mut choices,
                InteractionValue::Text(String::new()),
                "Use Session provider",
                true,
            );
            push_profiles(&mut choices, profiles);
        },
        None => {},
    }
    match declared.resource {
        Some(ResourceKind::Characters) => push_characters(&mut choices, characters),
        Some(ResourceKind::ProviderProfiles) => push_profiles(&mut choices, profiles),
        None => {},
    }
    choices
}

fn show_list(declared: &Option<DeclaredList>) -> (shown: Option<InteractionList>)
    ensures
        shows_list(shown, *declared),
{
    match declared {
        None => None,
        Some(list) => {
            let mut fields: Vec<InteractionListField> = Vec::new();
            let mut i: usize = 0;
            while i < list.fields.len()
                invariant
                    i <= list.fields@.len(),
                    fields@.len() == i,
                    forall|j: int|
                        0 <= j < i ==> (#[trigger] fields@[j]).property@
                            == list.fields@[j].property@ && fields@[j].label@
                            == list.fields@[j].label@ && fields@[j].control
                            == list.fields@[j].control,
                decreases list.fields@.len() - i,
            {
                fields.push(
                    InteractionListField {
                        property: list.fields[i].property.clone(),
                        label: list.fields[i].label.clone(),
                        control: list.fields[i].control,
                    },
                );
                i = i + 1;
            }
            Some(InteractionList { fields })
        },
    }
}

fn copy_number(number: &Option<JsonNumber>) -> (copy: Option<JsonNumber>)
    ensures
        number_view(copy) == number_view(*number),
{
    match number {
        Some(n) => Some(n.copy()),
        None => None,
    }
}

fn show_field(
    surface: &ContentHash,
    declared: &DeclaredField,
    property: &str,
    value: &Json,
    profiles: &Vec<String>,
    characters: &Vec<(ContentHash, String)>,
    enabled: bool,
    reason: &Option<String>,
) -> (shown: InteractionField)
    requires
        ordered(value@),
        declared.control == InteractionControl::OrderedList ==> declared.list is Some,
    ensures
        shows_field(
            shown,
            *surface,
            *declared,
            property@,
            value@,
            profiles@,
            characters@,
            enabled,
            option_view(*reason),
        ),
{
    let mut choices = offer(declared, profiles, characters);
    let ghost all = choices_view(choices@);
    let mut error = match validate_field_value(declared, value, &choices) {
        Ok(_) => None,
        Err(message) => Some(message),
    };
    if declared.control == InteractionControl::Choice || declared.control
        == InteractionControl::ResourceSelector {
        match value {
            Json::Text(current) => {
                if !current.as_str().is_empty() && !find_choice(&choices, value, false) {
                    error = Some("Selected resource is not available".to_owned());
                    let mut label = current.clone();
                    label.push_str(" (unavailable)");
                    push_choice(
                        &mut choices,
                        InteractionValue::Text(current.clone()),
                        label.as_str(),
                        false,
                    );
                    proof {
                        assert(selects_missing(*declared, value@, all));
                    }
                } else {
                    proof {
                        assert(!selects_missing(*declared, value@, all));
                    }
                }
            },
            _ => {},
        }
    }
    InteractionField {
        target: target_id(surface, "field", property),
        label: declared.label.clone(),
        help: declared.help.clone(),
        control: declared.control,
        value: InteractionValue::from_json(value),
        constraints: InteractionConstraints {
            integer: declared.kind == FieldKind::Integer,
            minimum: copy_number(&declared.minimum),
            maximum: copy_number(&declared.maximum),
        },
        choices,
        visible: true,
        enabled,
        unavailable_reason: text::copy_option(reason),
        list: show_list(&declared.list),
        error,
    }
}

/// A named number where there is one.
pub open spec fn optional_number_pair(name: Seq<char>, number: Option<JsonNumberView>) -> Seq<
    (Seq<char>, JsonView),
> {
    match number {
        Some(n) => seq![(name, JsonView::Number(n))],
        None => Seq::empty(),
    }
}

fn push_number(pairs: &mut Vec<(String, Json)>, name: &str, number: &Option<JsonNumber>)
    ensures
        members_view(final(pairs)@) == members_view(old(pairs)@) + optional_number_pair(
            name@,
            number_view(*number),
        ),
{
    let ghost before = members_view(pairs@);
    match number {
        Some(n) => {
            push_pair(pairs, name, Json::Number(n.copy()));
        },
        None => {},
    }
    proof {
        assert(members_view(pairs@) =~= before + optional_number_pair(
            name@,
            number_view(*number),
        ));
    }
}

/// How the choices of a surface are recorded.
pub open spec fn recorded_shown_choices(choices: Seq<InteractionChoice>) -> Seq<JsonView>
    decreases choices.len(),
{
    if choices.len() == 0 {
        Seq::empty()
    } else {
        let choice = choices.last();
        recorded_shown_choices(choices.drop_last()).push(
            JsonView::Object(
                object_of(
                    named()
                        .push(("value"@, recorded_value(choice.value)))
                        .push(("label"@, JsonView::Text(choice.label@)))
                        .push(("available"@, JsonView::Bool(choice.available))),
                ),
            ),
        )
    }
}

fn record_shown_choices(choices: &Vec<InteractionChoice>) -> (json: Json)
    ensures
        json@ == JsonView::Array(recorded_shown_choices(choices@)),
{
    let mut items = no_items();
    let mut i: usize = 0;
    proof {
        assert(choices@.take(0) =~= Seq::empty());
    }
    while i < choices.len()
        invariant
            i <= choices@.len(),
            items_view(items@) == recorded_shown_choices(choices@.take(i as int)),
        decreases choices@.len() - i,
    {
        let mut pairs = no_pairs();
        push_pair(&mut pairs, "value", choices[i].value.record());
        push_text(&mut pairs, "label", choices[i].label.as_str());
        push_pair(&mut pairs, "available", Json::Bool(choices[i].available));
        push_item(&mut items, object(pairs));
        proof {
            assert(choices@.take(i + 1).drop_last() =~= choices@.take(i as int));
            assert(choices@.take(i + 1).last() == choices@[i as int]);
        }
        i = i + 1;
    }
    proof {
        assert(choices@.take(choices@.len() as int) =~= choices@);
    }
    array(items)
}

/// How the fields of list items of a surface are recorded.
pub open spec fn recorded_shown_list_fields(fields: Seq<InteractionListField>) -> Seq<JsonView>
    decreases fields.len(),
{
    if fields.len() == 0 {
        Seq::empty()
    } else {
        let shown = fields.last();
        recorded_shown_list_fields(fields.drop_last()).push(
            JsonView::Object(
                object_of(
                    named()
                        .push(("property"@, JsonView::Text(shown.property@)))
                        .push(("label"@, JsonView::Text(shown.label@)))
                        .push(("control"@, JsonView::Text(shown.control.name()))),
                ),
            ),
        )
    }
}

/// How an ordered list of a surface is recorded, where there is one.
pub open spec fn recorded_shown_list(list: Option<InteractionList>) -> Seq<(Seq<char>, JsonView)> {
    match list {
        None => Seq::empty(),
        Some(l) => seq![
            (
                "list"@,
                JsonView::Object(
                    object_of(
                        named()
                            .push((
                                "fields"@,
                                JsonView::Array(recorded_shown_list_fields(l.fields@)),
                            )),
                    ),
                ),
            ),
        ],
    }
}

fn push_shown_list(pairs: &mut Vec<(String, Json)>, list: &Option<InteractionList>)
    ensures
        members_view(final(pairs)@) == members_view(old(pairs)@) + recorded_shown_list(*list),
{
    let ghost before = members_view(pairs@);
    match list {
        None => {},
        Some(l) => {
            let mut items = no_items();
            let mut i: usize = 0;
            proof {
                assert(l.fields@.take(0) =~= Seq::empty());
            }
            while i < l.fields.len()
                invariant
                    i <= l.fields@.len(),
                    items_view(items@) == recorded_shown_list_fields(l.fields@.take(i as int)),
                decreases l.fields@.len() - i,
            {
                let mut entry = no_pairs();
                push_text(&mut entry, "property", l.fields[i].property.as_str());
                push_text(&mut entry, "label", l.fields[i].label.as_str());
                push_text(&mut entry, "control", l.fields[i].control.as_str());
                push_item(&mut items, object(entry));
                proof {
                    assert(l.fields@.take(i + 1).drop_last() =~= l.fields@.take(i as int));
                    assert(l.fields@.take(i + 1).last() == l.fields@[i as int]);
                }
                i = i + 1;
            }
            proof {
                assert(l.fields@.take(l.fields@.len() as int) =~= l.fields@);
            }
            let mut inner = no_pairs();
            push_pair(&mut inner, "fields", array(items));
            push_pair(pairs, "list", object(inner));
        },
    }
    proof {
        assert(members_view(pairs@) =~= before + recorded_shown_list(*list));
    }
}

/// How a setting of a surface is recorded.
pub open spec fn recorded_shown_field(shown: InteractionField) -> JsonView {
    JsonView::Object(
        object_of(
            named()
                .push(("target"@, JsonView::Text(hash_text(shown.target@))))
                .push(("label"@, JsonView::Text(shown.label@)))
                .push(("help"@, JsonView::Text(shown.help@)))
                .push(("control"@, JsonView::Text(shown.control.name())))
                .push((
                    "value"@,
                    match shown.value {
                        Some(v) => recorded_value(v),
                        None => JsonView::Null,
                    },
                ))
                .push((
                    "constraints"@,
                    JsonView::Object(
                        object_of(
                            named().push(
                                ("integer"@, JsonView::Bool(shown.constraints.integer)),
                            ) + optional_number_pair(
                                "minimum"@,
                                number_view(shown.constraints.minimum),
                            ) + optional_number_pair(
                                "maximum"@,
                                number_view(shown.constraints.maximum),
                            ),
                        ),
                    ),
                ))
                .push(("choices"@, JsonView::Array(recorded_shown_choices(shown.choices@))))
                .push(("visible"@, JsonView::Bool(shown.visible)))
                .push(("enabled"@, JsonView::Bool(shown.enabled)))
                + optional_pair("unavailable_reason"@, option_view(shown.unavailable_reason))
                + recorded_shown_list(shown.list)
                + optional_pair("error"@, option_view(shown.error)),
        ),
    )
}

fn record_shown_field(shown: &InteractionField) -> (json: Json)
    ensures
        json@ == recorded_shown_field(*shown),
{
    let mut constraints = no_pairs();
    push_pair(&mut constraints, "integer", Json::Bool(shown.constraints.integer));
    push_number(&mut constraints, "minimum", &shown.constraints.minimum);
    push_number(&mut constraints, "maximum", &shown.constraints.maximum);
    let mut pairs = no_pairs();
    push_text(&mut pairs, "target", shown.target.text().as_str());
    push_text(&mut pairs, "label", shown.label.as_str());
    push_text(&mut pairs, "help", shown.help.as_str());
    push_text(&mut pairs, "control", shown.control.as_str());
    push_pair(
        &mut pairs,
        "value",
        match &shown.value {
            Some(v) => v.record(),
            None => Json::Null,
        },
    );
    push_pair(&mut pairs, "constraints", object(constraints));
    push_pair(&mut pairs, "choices", record_shown_choices(&shown.choices));
    push_pair(&mut pairs, "visible", Json::Bool(shown.visible));
    push_pair(&mut pairs, "enabled", Json::Bool(shown.enabled));
    push_optional(&mut pairs, "unavailable_reason", &shown.unavailable_reason);
    push_shown_list(&mut pairs, &shown.list);
    push_optional(&mut pairs, "error", &shown.error);
    object(pairs)
}

/// How the settings of a group of a surface are recorded.
pub open spec fn recorded_shown_fields(fields: Seq<InteractionField>) -> Seq<JsonView>
    decreases fields.len(),
{
    if fields.len() == 0 {
        Seq::empty()
    } else {
        recorded_shown_fields(fields.drop_last()).push(recorded_shown_field(fields.last()))
    }
}

/// How the groups of a surface are recorded.
pub open spec fn recorded_shown_groups(groups: Seq<InteractionGroup>) -> Seq<JsonView>
    decreases groups.len(),
{
    if groups.len() == 0 {
        Seq::empty()
    } else {
        let group = groups.last();
        recorded_shown_groups(groups.drop_last()).push(
            JsonView::Object(
                object_of(
                    named()
                        .push(("label"@, JsonView::Text(group.label@)))
                        .push(("help"@, JsonView::Text(group.help@)))
                        .push(("fields"@, JsonView::Array(recorded_shown_fields(group.fields@)))),
                ),
            ),
        )
    }
}

fn record_shown_groups(groups: &Vec<InteractionGroup>) -> (json: Json)
    ensures
        json@ == JsonView::Array(recorded_shown_groups(groups@)),
{
    let mut items = no_items();
    let mut g: usize = 0;
    proof {
        assert(groups@.take(0) =~= Seq::empty());
    }
    while g < groups.len()
        invariant
            g <= groups@.len(),
            items_view(items@) == recorded_shown_groups(groups@.take(g as int)),
        decreases groups@.len() - g,
    {
        let fields = &groups[g].fields;
        let mut shown = no_items();
        let mut i: usize = 0;
        proof {
            assert(fields@.take(0) =~= Seq::empty());
        }
        while i < fields.len()
            invariant
                i <= fields@.len(),
                items_view(shown@) == recorded_shown_fields(fields@.take(i as int)),
            decreases fields@.len() - i,
        {
            push_item(&mut shown, record_shown_field(&fields[i]));
            proof {
                assert(fields@.take(i + 1).drop_last() =~= fields@.take(i as int));
                assert(fields@.take(i + 1).last() == fields@[i as int]);
            }
            i = i + 1;
        }
        proof {
            assert(fields@.take(fields@.len() as int) =~= fields@);
        }
        let mut pairs = no_pairs();
        push_text(&mut pairs, "label", groups[g].label.as_str());
        push_text(&mut pairs, "help", groups[g].help.as_str());
        push_pair(&mut pairs, "fields", array(shown));
        push_item(&mut items, object(pairs));
        proof {
            assert(groups@.take(g + 1).drop_last() =~= groups@.take(g as int));
            assert(groups@.take(g + 1).last() == groups@[g as int]);
        }
        g = g + 1;
    }
    proof {
        assert(groups@.take(groups@.len() as int) =~= groups@);
    }
    array(items)
}

/// How an action of a surface is recorded.
pub open spec fn recorded_shown_action(action: InteractionAction) -> JsonView {
    JsonView::Object(
        object_of(
            (named()
                .push(("target"@, JsonView::Text(hash_text(action.target@))))
                .push(("label"@, JsonView::Text(action.label@)))
                .push(("help"@, JsonView::Text(action.help@)))
                .push(("support"@, JsonView::Text(action.support.name()))) + optional_pair(
                "support_reason"@,
                option_view(action.support_reason),
            )).push(("enabled"@, JsonView::Bool(action.enabled))) + optional_pair(
                "unavailable_reason"@,
                option_view(action.unavailable_reason),
            ),
        ),
    )
}

fn record_shown_action(action: &InteractionAction) -> (json: Json)
    ensures
        json@ == recorded_shown_action(*action),
{
    let mut pairs = no_pairs();
    push_text(&mut pairs, "target", action.target.text().as_str());
    push_text(&mut pairs, "label", action.label.as_str());
    push_text(&mut pairs, "help", action.help.as_str());
    push_text(&mut pairs, "support", action.support.as_str());
    push_optional(&mut pairs, "support_reason", &action.support_reason);
    push_pair(&mut pairs, "enabled", Json::Bool(action.enabled));
    push_optional(&mut pairs, "unavailable_reason", &action.unavailable_reason);
    object(pairs)
}

/// How the actions of a surface are recorded.
pub open spec fn recorded_shown_actions(actions: Seq<InteractionAction>) -> Seq<JsonView>
    decreases actions.len(),
{
    if actions.len() == 0 {
        Seq::empty()
    } else {
        recorded_shown_actions(actions.drop_last()).push(recorded_shown_action(actions.last()))
    }
}

fn record_shown_actions(actions: &Vec<InteractionAction>) -> (json: Json)
    ensures
        json@ == JsonView::Array(recorded_shown_actions(actions@)),
{
    let mut items = no_items();
    let mut i: usize = 0;
    proof {
        assert(actions@.take(0) =~= Seq::empty());
    }
    while i < actions.len()
        invariant
            i <= actions@.len(),
            items_view(items@) == recorded_shown_actions(actions@.take(i as int)),
        decreases actions@.len() - i,
    {
        push_item(&mut items, record_shown_action(&actions[i]));
        proof {
            assert(actions@.take(i + 1).drop_last() =~= actions@.take(i as int));
            assert(actions@.take(i + 1).last() == actions@[i as int]);
        }
        i = i + 1;
    }
    proof {
        assert(actions@.take(actions@.len() as int) =~= actions@);
    }
    array(items)
}

/// The JSON value that the revision of a surface is hashed by.
pub open spec fn revision_json(
    surface: Seq<u8>,
    configuration: Seq<u8>,
    settings: Seq<(Seq<char>, JsonView)>,
    groups: Seq<InteractionGroup>,
    save: InteractionAction,
    actions: Seq<InteractionAction>,
) -> JsonView {
    JsonView::Object(
        object_of(
            named()
                .push(("surface_id"@, JsonView::Text(hash_text(surface))))
                .push(("configuration_revision"@, JsonView::Text(hash_text(configuration))))
                .push(("values"@, JsonView::Object(settings)))
                .push(("groups"@, JsonView::Array(recorded_shown_groups(groups))))
                .push(("save"@, recorded_shown_action(save)))
                .push(("actions"@, JsonView::Array(recorded_shown_actions(actions)))),
        ),
    )
}

/// A declaration holds together: its settings are ordered, the settings of its
/// groups are those that it declares, an ordered list has items, an action
/// that can be run has a command and one that cannot says why.
pub open spec fn well_formed(declaration: InteractionDeclaration) -> bool {
    &&& assoc::ascending(declaration.fields@)
    &&& forall|i: int|
        0 <= i < declaration.fields@.len() ==> is_grouped(
            declaration.groups@,
            (#[trigger] declaration.fields@[i]).0@,
        )
    &&& forall|a: int|
        0 <= a < declaration.actions@.len() ==> if (
        #[trigger] declaration.actions@[a]).support.executable() {
            declaration.actions@[a].command is Some
        } else {
            given(declaration.actions@[a].support_reason)
        }
    &&& forall|g: int, i: int|
        0 <= g < declaration.groups@.len() && 0 <= i < declaration.groups@[g].fields@.len()
            ==> assoc::has(
            declaration.fields@,
            (#[trigger] declaration.groups@[g].fields@[i])@,
        )
    &&& forall|i: int|
        0 <= i < declaration.fields@.len() && (
        #[trigger] declaration.fields@[i]).1.control == InteractionControl::OrderedList
            ==> declaration.fields@[i].1.list is Some
}

/// Some group holds a setting.
pub open spec fn is_grouped(groups: Seq<DeclaredGroup>, name: Seq<char>) -> bool {
    exists|g: int, k: int|
        0 <= g < groups.len() && 0 <= k < groups[g].fields@.len() && (
        #[trigger] groups[g].fields@[k])@ == name
}

proof fn lemma_grouped_is(groups: Seq<DeclaredGroup>, count: int, name: Seq<char>)
    requires
        0 <= count <= groups.len(),
        grouped(groups, count).contains(name),
    ensures
        is_grouped(groups, name),
    decreases count,
{
    if count > 0 {
        let before = grouped(groups, count - 1);
        let last = views(groups[count - 1].fields@);
        let x = choose|x: int| 0 <= x < (before + last).len() && (before + last)[x] == name;
        if x < before.len() {
            assert(before[x] == name);
            lemma_grouped_is(groups, count - 1, name);
        } else {
            assert(groups[count - 1].fields@[x - before.len()]@ == name);
        }
    }
}

proof fn lemma_actions_bound(manifest: PluginManifest, actions: Seq<DeclaredAction>, from: int, a: int)
    requires
        0 <= from <= a < actions.len(),
        actions_error(manifest, actions, from) is None,
    ensures
        if actions[a].support.executable() {
            actions[a].command is Some
        } else {
            given(actions[a].support_reason)
        },
    decreases a - from,
{
    if from < a {
        lemma_actions_bound(manifest, actions, from + 1, a);
    }
}

proof fn lemma_grouped_contains(groups: Seq<DeclaredGroup>, count: int, g: int, i: int)
    requires
        0 <= g < count <= groups.len(),
        0 <= i < groups[g].fields@.len(),
    ensures
        grouped(groups, count).contains(groups[g].fields@[i]@),
    decreases count,
{
    let before = grouped(groups, count - 1);
    let last = views(groups[count - 1].fields@);
    assert(grouped(groups, count) == before + last);
    if g == count - 1 {
        assert((before + last)[before.len() + i] == groups[g].fields@[i]@);
    } else {
        lemma_grouped_contains(groups, count - 1, g, i);
        let x = choose|x: int| 0 <= x < before.len() && before[x] == groups[g].fields@[i]@;
        assert((before + last)[x] == groups[g].fields@[i]@);
    }
}

/// A declaration that was read from a schema holds together.
pub proof fn law_declarations_are_well_formed(
    declaration: InteractionDeclaration,
    manifest: PluginManifest,
    schema: JsonView,
    annotation: Annotation,
)
    requires
        declaration_error(manifest, schema, Ok(annotation)) is None,
        is_declaration(declaration, manifest, schema, annotation),
    ensures
        well_formed(declaration),
{
    let count = annotation.groups@.len() as int;
    assert forall|i: int| 0 <= i < declaration.fields@.len() implies is_grouped(
        declaration.groups@,
        (#[trigger] declaration.fields@[i]).0@,
    ) by {
        lemma_grouped_is(annotation.groups@, count, declaration.fields@[i].0@);
    }
    assert forall|a: int| 0 <= a < declaration.actions@.len() implies if (
    #[trigger] declaration.actions@[a]).support.executable() {
        declaration.actions@[a].command is Some
    } else {
        given(declaration.actions@[a].support_reason)
    } by {
        lemma_actions_bound(manifest, annotation.actions@, 0, a);
    }
    assert forall|g: int, i: int|
        0 <= g < declaration.groups@.len() && 0 <= i < declaration.groups@[g].fields@.len() implies
        assoc::has(declaration.fields@, (#[trigger] declaration.groups@[g].fields@[i])@) by {
        lemma_grouped_contains(annotation.groups@, count, g, i);
        let names = grouped(annotation.groups@, count);
        let x = choose|x: int|
            0 <= x < names.len() && names[x] == declaration.groups@[g].fields@[i]@;
        assert(assoc::has(declaration.fields@, names[x]));
    }
}

/// A surface shows a group with the values in force.
pub open spec fn shows_group(
    shown: InteractionGroup,
    surface: ContentHash,
    declaration: InteractionDeclaration,
    group: DeclaredGroup,
    input: SurfaceBuild,
) -> bool {
    &&& shown.label@ == group.label@
    &&& shown.help@ == group.help@
    &&& shown.fields@.len() == group.fields@.len()
    &&& forall|i: int|
        0 <= i < group.fields@.len() ==> shows_field(
            #[trigger] shown.fields@[i],
            surface,
            assoc::lookup(declaration.fields@, group.fields@[i]@)->0,
            group.fields@[i]@,
            setting_in_force(
                declaration.fields@,
                input.persisted_settings@,
                input.pinned_settings@,
                group.fields@[i]@,
            )->0,
            input.provider_profiles@,
            input.characters@,
            can_save(declaration, input.enabled, input.capabilities@),
            save_reason(declaration, input.enabled, input.capabilities@),
        )
}

/// A surface shows an action.
pub open spec fn shows_action(
    shown: InteractionAction,
    surface: ContentHash,
    declaration: InteractionDeclaration,
    action: DeclaredAction,
    input: SurfaceBuild,
) -> bool {
    let reason = action_reason(
        declaration,
        action,
        input.enabled,
        input.capabilities@,
        input.branch_id is Some,
        input.completed_attempt,
        input.scripting,
    );
    &&& is_target(shown.target, surface, "action"@, action.id@)
    &&& shown.label@ == action.label@
    &&& shown.help@ == action.help@
    &&& shown.support == action.support
    &&& option_view(shown.support_reason) == option_view(action.support_reason)
    &&& shown.enabled == (reason is None)
    &&& option_view(shown.unavailable_reason) == reason
}

/// A surface shows the saving of a declaration's settings.
pub open spec fn shows_save(
    shown: InteractionAction,
    surface: ContentHash,
    declaration: InteractionDeclaration,
    input: SurfaceBuild,
) -> bool {
    &&& is_target(shown.target, surface, "save"@, declaration.id@)
    &&& shown.label@ == "Save"@
    &&& shown.help@ == "Save edited values as a new Session Configuration Revision."@
    &&& shown.support == declaration.support
    &&& option_view(shown.support_reason) == option_view(declaration.support_reason)
    &&& shown.enabled == can_save(declaration, input.enabled, input.capabilities@)
    &&& option_view(shown.unavailable_reason) == save_reason(
        declaration,
        input.enabled,
        input.capabilities@,
    )
}

/// A surface names what it was made for.
pub open spec fn identifies(identity: InteractionIdentity, input: SurfaceBuild) -> bool {
    let manifest = input.installed.manifest;
    &&& identity.session_id == input.session_id
    &&& identity.branch_id == input.branch_id
    &&& identity.extension_id@ == manifest.id@
    &&& identity.package_version@ == manifest.version@
    &&& identity.component_sha256@ == manifest.component_sha256@
    &&& identity.declaration_hash@ == input.declaration.hash@
    &&& canonical_hash_of(
        SURFACE_DOMAIN@,
        surface_json(input.session_id, input.branch_id, manifest, *input.declaration),
    ) == Some(identity.surface_id@)
}

/// A surface shows a declaration, but for its revision.
pub open spec fn shows(surface: InteractionSurface, input: SurfaceBuild) -> bool {
    let declaration = *input.declaration;
    let id = surface.identity.surface_id;
    &&& identifies(surface.identity, input)
    &&& surface.support == declaration.support
    &&& option_view(surface.support_reason) == option_view(declaration.support_reason)
    &&& surface.label@ == match input.installed.manifest.display_name {
        Some(name) => name@,
        None => input.installed.manifest.id@,
    }
    &&& surface.help@ == "Edit saved Extension settings and run declared actions."@
    &&& surface.groups@.len() == declaration.groups@.len()
    &&& forall|g: int|
        0 <= g < surface.groups@.len() ==> shows_group(
            #[trigger] surface.groups@[g],
            id,
            declaration,
            declaration.groups@[g],
            input,
        )
    &&& shows_save(surface.save, id, declaration, input)
    &&& surface.actions@.len() == declaration.actions@.len()
    &&& forall|a: int|
        0 <= a < surface.actions@.len() ==> shows_action(
            #[trigger] surface.actions@[a],
            id,
            declaration,
            declaration.actions@[a],
            input,
        )
}

/// The revision of a surface is the hash of what it shows and of the settings
/// in force.
pub open spec fn revises(surface: InteractionSurface, input: SurfaceBuild) -> bool {
    exists|settings: Seq<(Seq<char>, JsonView)>|
        {
            &&& #[trigger] are_settings(
                settings,
                input.declaration.fields@,
                input.persisted_settings@,
                input.pinned_settings@,
            )
            &&& canonical_hash_of(
                REVISION_DOMAIN@,
                revision_json(
                    surface.identity.surface_id@,
                    input.configuration_revision@,
                    settings,
                    surface.groups@,
                    surface.save,
                    surface.actions@,
                ),
            ) == Some(surface.revision@)
        }
}

/// What a surface shows has, with the settings in force, no canonical form.
pub open spec fn has_no_revision(surface: InteractionSurface, input: SurfaceBuild) -> bool {
    exists|settings: Seq<(Seq<char>, JsonView)>|
        {
            &&& #[trigger] are_settings(
                settings,
                input.declaration.fields@,
                input.persisted_settings@,
                input.pinned_settings@,
            )
            &&& canonical_hash_of(
                REVISION_DOMAIN@,
                revision_json(
                    surface.identity.surface_id@,
                    input.configuration_revision@,
                    settings,
                    surface.groups@,
                    surface.save,
                    surface.actions@,
                ),
            ) is None
        }
}

fn pick_reason(a: Option<String>, b: Option<String>) -> (r: Option<String>)
    ensures
        option_view(r) == first_reason(option_view(a), option_view(b)),
{
    match a {
        Some(reason) => Some(reason),
        None => b,
    }
}

fn give_if(condition: bool, reason: &str) -> (r: Option<String>)
    ensures
        option_view(r) == reason_if(condition, reason@),
{
    if condition {
        Some(reason.to_owned())
    } else {
        None
    }
}

fn unsupported_reason(support: InteractionSupport, reason: &Option<String>) -> (r: Option<String>)
    ensures
        option_view(r) == support_reason_of(support, *reason),
{
    if support.is_executable() {
        None
    } else {
        text::copy_option(reason)
    }
}

fn show_action(surface: &ContentHash, action: &DeclaredAction, input: &SurfaceBuild) -> (shown:
    InteractionAction)
    ensures
        shows_action(shown, *surface, *input.declaration, *action, *input),
{
    let reason = pick_reason(
        unsupported_reason(action.support, &action.support_reason),
        pick_reason(
            unsupported_reason(input.declaration.support, &input.declaration.support_reason),
            pick_reason(
                give_if(!input.enabled, "Extension is disabled"),
                pick_reason(
                    give_if(
                        !is_within(&action.capabilities, input.capabilities),
                        "Extension action capabilities are not granted",
                    ),
                    pick_reason(
                        give_if(
                            action.requires_branch && input.branch_id.is_none(),
                            "Action requires a Branch",
                        ),
                        pick_reason(
                            give_if(
                                action.requires_completed_attempt && !input.completed_attempt,
                                "Action requires a completed Primary Attempt",
                            ),
                            give_if(
                                !input.scripting,
                                "Extension execution requires scripting support",
                            ),
                        ),
                    ),
                ),
            ),
        ),
    );
    InteractionAction {
        target: target_id(surface, "action", action.id.as_str()),
        label: action.label.clone(),
        help: action.help.clone(),
        support: action.support,
        support_reason: text::copy_option(&action.support_reason),
        enabled: reason.is_none(),
        unavailable_reason: reason,
    }
}

fn show_group(
    surface: &ContentHash,
    group: &DeclaredGroup,
    input: &SurfaceBuild,
    effective: &Vec<(String, Json)>,
    enabled: bool,
    reason: &Option<String>,
) -> (shown: InteractionGroup)
    requires
        well_formed(*input.declaration),
        forall|i: int|
            0 <= i < group.fields@.len() ==> assoc::has(
                input.declaration.fields@,
                (#[trigger] group.fields@[i])@,
            ),
        are_settings(
            members_view(effective@),
            input.declaration.fields@,
            input.persisted_settings@,
            input.pinned_settings@,
        ),
        enabled == can_save(*input.declaration, input.enabled, input.capabilities@),
        option_view(*reason) == save_reason(
            *input.declaration,
            input.enabled,
            input.capabilities@,
        ),
    ensures
        shows_group(shown, *surface, *input.declaration, *group, *input),
{
    let declaration = input.declaration;
    let mut fields: Vec<InteractionField> = Vec::new();
    let mut i: usize = 0;
    while i < group.fields.len()
        invariant
            i <= group.fields@.len(),
            *declaration == *input.declaration,
            well_formed(*declaration),
            forall|j: int|
                0 <= j < group.fields@.len() ==> assoc::has(
                    declaration.fields@,
                    (#[trigger] group.fields@[j])@,
                ),
            are_settings(
                members_view(effective@),
                declaration.fields@,
                input.persisted_settings@,
                input.pinned_settings@,
            ),
            enabled == can_save(*declaration, input.enabled, input.capabilities@),
            option_view(*reason) == save_reason(
                *declaration,
                input.enabled,
                input.capabilities@,
            ),
            fields@.len() == i,
            forall|j: int|
                0 <= j < i ==> shows_field(
                    #[trigger] fields@[j],
                    *surface,
                    assoc::lookup(declaration.fields@, group.fields@[j]@)->0,
                    group.fields@[j]@,
                    setting_in_force(
                        declaration.fields@,
                        input.persisted_settings@,
                        input.pinned_settings@,
                        group.fields@[j]@,
                    )->0,
                    input.provider_profiles@,
                    input.characters@,
                    can_save(*declaration, input.enabled, input.capabilities@),
                    save_reason(*declaration, input.enabled, input.capabilities@),
                ),
        decreases group.fields@.len() - i,
    {
        let property = &group.fields[i];
        proof {
            assert(assoc::has(declaration.fields@, group.fields@[i as int]@));
            assoc::lemma_index_of(declaration.fields@, property@);
            lemma_member_ordered(members_view(effective@), property@);
            assert(member(members_view(effective@), property@) == setting_in_force(
                declaration.fields@,
                input.persisted_settings@,
                input.pinned_settings@,
                property@,
            ));
        }
        match (
            assoc::find(&declaration.fields, property.as_str()),
            find_member(effective, property.as_str()),
        ) {
            (Some(declared), Some(value)) => {
                let shown = show_field(
                    surface,
                    declared,
                    property.as_str(),
                    value,
                    input.provider_profiles,
                    input.characters,
                    enabled,
                    reason,
                );
                fields.push(shown);
            },
            _ => {
                proof {
                    assert(false);
                }
            },
        }
        i = i + 1;
    }
    InteractionGroup { label: group.label.clone(), help: group.help.clone(), fields }
}

/// What showing a declaration for a session comes to.
pub open spec fn is_surface(r: Result<InteractionSurface, PluginError>, input: SurfaceBuild) -> bool {
    match r {
        Ok(surface) => {
            &&& settings_error(input.persisted_settings@, input.pinned_settings@) is None
            &&& shows(surface, input)
            &&& revises(surface, input)
        },
        Err(e) => match settings_error(input.persisted_settings@, input.pinned_settings@) {
            Some(message) => refuses(e, message),
            None => e == PluginError::Canonicalize && exists|surface: InteractionSurface|
                #[trigger] shows(surface, input) && has_no_revision(surface, input),
        },
    }
}

/// Shows a declaration for a session.
pub fn build_surface(input: SurfaceBuild) -> (r: Result<InteractionSurface, PluginError>)
    requires
        well_formed(*input.declaration),
        ordered(input.persisted_settings@),
        ordered(input.pinned_settings@),
    ensures
        is_surface(r, input),
{
    let declaration = input.declaration;
    let effective = match effective_settings(
        declaration,
        input.persisted_settings,
        input.pinned_settings,
    ) {
        Ok(effective) => effective,
        Err(e) => {
            return Err(e);
        },
    };
    let id = surface_id(input.session_id, input.branch_id, input.installed, declaration);
    let writes = has_capability(input.capabilities, PluginCapability::WriteOwnState);
    let enabled = declaration.support.is_executable() && input.enabled && writes;
    let reason = pick_reason(
        unsupported_reason(declaration.support, &declaration.support_reason),
        pick_reason(
            give_if(!input.enabled, "Extension is disabled"),
            give_if(!writes, "Extension does not grant write-own-state"),
        ),
    );
    let mut groups: Vec<InteractionGroup> = Vec::new();
    let mut g: usize = 0;
    while g < declaration.groups.len()
        invariant
            g <= declaration.groups@.len(),
            *declaration == *input.declaration,
            well_formed(*declaration),
            are_settings(
                members_view(effective@),
                declaration.fields@,
                input.persisted_settings@,
                input.pinned_settings@,
            ),
            enabled == can_save(*declaration, input.enabled, input.capabilities@),
            option_view(reason) == save_reason(*declaration, input.enabled, input.capabilities@),
            groups@.len() == g,
            forall|j: int|
                0 <= j < g ==> shows_group(
                    #[trigger] groups@[j],
                    id,
                    *declaration,
                    declaration.groups@[j],
                    input,
                ),
        decreases declaration.groups@.len() - g,
    {
        let group = &declaration.groups[g];
        proof {
            assert forall|i: int| 0 <= i < group.fields@.len() implies assoc::has(
                declaration.fields@,
                (#[trigger] group.fields@[i])@,
            ) by {
                assert(assoc::has(
                    declaration.fields@,
                    declaration.groups@[g as int].fields@[i]@,
                ));
            }
        }
        let shown = show_group(&id, group, &input, &effective, enabled, &reason);
        groups.push(shown);
        g = g + 1;
    }
    let mut actions: Vec<InteractionAction> = Vec::new();
    let mut a: usize = 0;
    while a < declaration.actions.len()
        invariant
            a <= declaration.actions@.len(),
            *declaration == *input.declaration,
            actions@.len() == a,
            forall|j: int|
                0 <= j < a ==> shows_action(
                    #[trigger] actions@[j],
                    id,
                    *declaration,
                    declaration.actions@[j],
                    input,
                ),
        decreases declaration.actions@.len() - a,
    {
        let shown = show_action(&id, &declaration.actions[a], &input);
        actions.push(shown);
        a = a + 1;
    }
    let save = InteractionAction {
        target: target_id(&id, "save", declaration.id.as_str()),
        label: "Save".to_owned(),
        help: "Save edited values as a new Session Configuration Revision.".to_owned(),
        support: declaration.support,
        support_reason: text::copy_option(&declaration.support_reason),
        enabled,
        unavailable_reason: reason,
    };
    let manifest = &input.installed.manifest;
    let mut surface = InteractionSurface {
        identity: InteractionIdentity {
            session_id: input.session_id,
            branch_id: input.branch_id,
            extension_id: manifest.id.clone(),
            package_version: manifest.version.clone(),
            component_sha256: manifest.component_sha256,
            declaration_hash: declaration.hash,
            surface_id: id,
        },
        revision: *input.configuration_revision,
        support: declaration.support,
        support_reason: text::copy_option(&declaration.support_reason),
        label: match &manifest.display_name {
            Some(name) => name.clone(),
            None => manifest.id.clone(),
        },
        help: "Edit saved Extension settings and run declared actions.".to_owned(),
        groups,
        save,
        actions,
    };
    let ghost settings = members_view(effective@);
    let mut pairs = no_pairs();
    push_text(&mut pairs, "surface_id", id.text().as_str());
    push_text(&mut pairs, "configuration_revision", input.configuration_revision.text().as_str());
    proof {
        lemma_object_view(effective);
    }
    push_pair(&mut pairs, "values", Json::Object(effective));
    push_pair(&mut pairs, "groups", record_shown_groups(&surface.groups));
    push_pair(&mut pairs, "save", record_shown_action(&surface.save));
    push_pair(&mut pairs, "actions", record_shown_actions(&surface.actions));
    let value = object(pairs);
    proof {
        assert(value@ == revision_json(
            id@,
            input.configuration_revision@,
            settings,
            surface.groups@,
            surface.save,
            surface.actions@,
        ));
        assert(are_settings(
            settings,
            declaration.fields@,
            input.persisted_settings@,
            input.pinned_settings@,
        ));
        assert(shows(surface, input));
    }
    match canonical_json_hash(REVISION_DOMAIN, &value) {
        Ok(revision) => {
            surface.revision = revision;
            Ok(surface)
        },
        Err(_) => {
            proof {
                assert(has_no_revision(surface, input));
            }
            Err(PluginError::Canonicalize)
        },
    }
}

} // verus!

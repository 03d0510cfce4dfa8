//! Declared interactions: groups of settings and actions.
use vstd::prelude::*;

use crate::assoc;
use crate::identity::{canonical_hash_of, canonical_json_hash, ContentHash, hash_text};
use crate::interaction::schema::{
    ChoiceSource, DeclaredChoice, DeclaredField, DeclaredList, DeclaredListField, field_error,
    field_fault, field_message, invalid, is_field, number_view, parse_field, refuses,
    ResourceKind,
};
use crate::interaction::value::recorded_value;
use crate::json::{
    array, as_members, as_text, field, find_member, items_view, Json, JsonNumber, JsonNumberView,
    JsonView, lemma_member_ordered, member, members_view, named, no_items, no_pairs, object,
    object_of, optional_text, ordered, push_item, push_pair, push_text, text_array, text_or_null,
    texts_array,
};
use crate::plugin::{
    has_capability, is_within, PluginCapability, PluginError, PluginLimits, PluginManifest,
    PluginRuntime, within,
};
use crate::text::{self, blank, lemma_views_push, option_view, views};

verus! {

pub const INTERACTION_SCHEMA: &'static str = "stcli.interaction/v1";

pub const DECLARATION_DOMAIN: &'static str = "stcli:interaction-declaration:v1";

/// How well a declared interaction is supported.
#[derive(Clone, Copy, Debug, Eq, PartialEq, Structural)]
pub enum InteractionSupport {
    Available,
    PartiallyAvailable,
    Unavailable,
    Unverified,
}

/// A group of settings.
#[derive(Clone, Debug, Eq, PartialEq)]
pub struct DeclaredGroup {
    pub label: String,
    pub help: String,
    pub fields: Vec<String>,
}

/// An action that an extension offers.
#[derive(Clone, Debug, Eq, PartialEq)]
pub struct DeclaredAction {
    pub id: String,
    pub label: String,
    pub help: String,
    pub command: Option<String>,
    pub support: InteractionSupport,
    pub support_reason: Option<String>,
    pub requires_branch: bool,
    pub requires_completed_attempt: bool,
    pub capabilities: Vec<PluginCapability>,
}

/// What a settings schema says of the interaction it declares.
#[derive(Clone, Debug, Eq, PartialEq)]
pub struct Annotation {
    pub schema: String,
    pub id: String,
    pub component_sha256: ContentHash,
    pub support: InteractionSupport,
    pub support_reason: Option<String>,
    pub groups: Vec<DeclaredGroup>,
    pub actions: Vec<DeclaredAction>,
}

/// A declared interaction. Its settings stand in ascending order of their
/// properties.
#[derive(Debug, Eq, PartialEq)]
pub struct InteractionDeclaration {
    pub id: String,
    pub hash: ContentHash,
    pub support: InteractionSupport,
    pub support_reason: Option<String>,
    pub fields: Vec<(String, DeclaredField)>,
    pub groups: Vec<DeclaredGroup>,
    pub actions: Vec<DeclaredAction>,
}

impl InteractionSupport {
    /// Whether what is so supported can be run.
    pub open spec fn executable(self) -> bool {
        self == InteractionSupport::Available || self == InteractionSupport::PartiallyAvailable
    }

    /// Whether what is so supported can be run.
    pub fn is_executable(self) -> (r: bool)
        ensures
            r == self.executable(),
    {
        self == InteractionSupport::Available || self == InteractionSupport::PartiallyAvailable
    }

    /// The written name.
    pub open spec fn name(self) -> Seq<char> {
        match self {
            InteractionSupport::Available => "available"@,
            InteractionSupport::PartiallyAvailable => "partially-available"@,
            InteractionSupport::Unavailable => "unavailable"@,
            InteractionSupport::Unverified => "unverified"@,
        }
    }

    /// The written name.
    pub fn as_str(self) -> (r: &'static str)
        ensures
            r@ == self.name(),
    {
        match self {
            InteractionSupport::Available => "available",
            InteractionSupport::PartiallyAvailable => "partially-available",
            InteractionSupport::Unavailable => "unavailable",
            InteractionSupport::Unverified => "unverified",
        }
    }
}

/// A number, or null.
pub open spec fn number_or_null(number: Option<JsonNumberView>) -> JsonView {
    match number {
        Some(n) => JsonView::Number(n),
        None => JsonView::Null,
    }
}

fn optional_number_json(number: &Option<JsonNumber>) -> (json: Json)
    ensures
        json@ == number_or_null(number_view(*number)),
{
    match number {
        Some(n) => Json::Number(n.copy()),
        None => Json::Null,
    }
}

/// How a listed choice is recorded.
pub open spec fn recorded_choice(choice: DeclaredChoice) -> JsonView {
    JsonView::Object(
        object_of(
            named().push(("value"@, recorded_value(choice.value))).push(("label"@, JsonView::Text(choice.label@))),
        ),
    )
}

/// How a field of list items is recorded.
pub open spec fn recorded_list_field(declared: DeclaredListField) -> JsonView {
    JsonView::Object(
        object_of(
            named().push(("property"@, JsonView::Text(declared.property@))).push(("label"@, JsonView::Text(declared.label@))).push(("control"@, JsonView::Text(declared.control.name()))).push(("kind"@, JsonView::Text(declared.kind.name()))),
        ),
    )
}

/// How the fields of list items are recorded.
pub open spec fn recorded_list_fields(fields: Seq<DeclaredListField>) -> Seq<JsonView>
    decreases fields.len(),
{
    if fields.len() == 0 {
        Seq::empty()
    } else {
        recorded_list_fields(fields.drop_last()).push(recorded_list_field(fields.last()))
    }
}

/// How listed choices are recorded.
pub open spec fn recorded_choices(choices: Seq<DeclaredChoice>) -> Seq<JsonView>
    decreases choices.len(),
{
    if choices.len() == 0 {
        Seq::empty()
    } else {
        recorded_choices(choices.drop_last()).push(recorded_choice(choices.last()))
    }
}

/// How an ordered list is recorded.
pub open spec fn recorded_list(list: Option<DeclaredList>) -> JsonView {
    match list {
        None => JsonView::Null,
        Some(l) => JsonView::Object(
            object_of(
                named().push(("item_id"@, JsonView::Text(l.item_id@))).push((
                        "fields"@,
                        JsonView::Array(recorded_list_fields(l.fields@)),
                    )),
            ),
        ),
    }
}

/// How a setting is recorded.
pub open spec fn recorded_field(declared: DeclaredField) -> JsonView {
    JsonView::Object(
        object_of(
            named().push(("property"@, JsonView::Text(declared.property@))).push(("label"@, JsonView::Text(declared.label@))).push(("help"@, JsonView::Text(declared.help@))).push(("control"@, JsonView::Text(declared.control.name()))).push(("kind"@, JsonView::Text(declared.kind.name()))).push(("default"@, recorded_value(declared.default))).push(("minimum"@, number_or_null(number_view(declared.minimum)))).push(("maximum"@, number_or_null(number_view(declared.maximum)))).push((
                    "choices"@,
                    JsonView::Array(recorded_choices(declared.choices@)),
                )).push((
                    "choice_source"@,
                    match declared.choice_source {
                        Some(ChoiceSource::ProviderProfiles) => JsonView::Text(
                            "provider-profiles"@,
                        ),
                        None => JsonView::Null,
                    },
                )).push(("list"@, recorded_list(declared.list))).push((
                    "resource"@,
                    match declared.resource {
                        Some(ResourceKind::Characters) => JsonView::Text("characters"@),
                        Some(ResourceKind::ProviderProfiles) => JsonView::Text(
                            "provider-profiles"@,
                        ),
                        None => JsonView::Null,
                    },
                )),
        ),
    )
}

fn record_list(list: &Option<DeclaredList>) -> (json: Json)
    ensures
        json@ == recorded_list(*list),
{
    match list {
        None => Json::Null,
        Some(l) => {
            let mut fields = no_items();
            let mut i: usize = 0;
            proof {
                assert(l.fields@.take(0) =~= Seq::empty());
            }
            while i < l.fields.len()
                invariant
                    i <= l.fields@.len(),
                    items_view(fields@) == recorded_list_fields(l.fields@.take(i as int)),
                decreases l.fields@.len() - i,
            {
                let f = &l.fields[i];
                let mut pairs = no_pairs();
                push_text(&mut pairs, "property", f.property.as_str());
                push_text(&mut pairs, "label", f.label.as_str());
                push_text(&mut pairs, "control", f.control.as_str());
                push_text(&mut pairs, "kind", f.kind.as_str());
                push_item(&mut fields, object(pairs));
                proof {
                    assert(l.fields@.take(i + 1).drop_last() =~= l.fields@.take(i as int));
                    assert(l.fields@.take(i + 1).last() == *f);
                }
                i = i + 1;
            }
            proof {
                assert(l.fields@.take(l.fields@.len() as int) =~= l.fields@);
            }
            let mut pairs = no_pairs();
            push_text(&mut pairs, "item_id", l.item_id.as_str());
            push_pair(&mut pairs, "fields", array(fields));
            object(pairs)
        },
    }
}

fn record_choices(choices: &Vec<DeclaredChoice>) -> (json: Json)
    ensures
        json@ == JsonView::Array(recorded_choices(choices@)),
{
    let mut items = no_items();
    let mut i: usize = 0;
    proof {
        assert(choices@.take(0) =~= Seq::empty());
    }
    while i < choices.len()
        invariant
            i <= choices@.len(),
            items_view(items@) == recorded_choices(choices@.take(i as int)),
        decreases choices@.len() - i,
    {
        let c = &choices[i];
        let mut pairs = no_pairs();
        push_pair(&mut pairs, "value", c.value.record());
        push_text(&mut pairs, "label", c.label.as_str());
        push_item(&mut items, object(pairs));
        proof {
            assert(choices@.take(i + 1).drop_last() =~= choices@.take(i as int));
            assert(choices@.take(i + 1).last() == *c);
        }
        i = i + 1;
    }
    proof {
        assert(choices@.take(choices@.len() as int) =~= choices@);
    }
    array(items)
}

fn record_field(declared: &DeclaredField) -> (json: Json)
    ensures
        json@ == recorded_field(*declared),
{
    let mut pairs = no_pairs();
    push_text(&mut pairs, "property", declared.property.as_str());
    push_text(&mut pairs, "label", declared.label.as_str());
    push_text(&mut pairs, "help", declared.help.as_str());
    push_text(&mut pairs, "control", declared.control.as_str());
    push_text(&mut pairs, "kind", declared.kind.as_str());
    push_pair(&mut pairs, "default", declared.default.record());
    push_pair(&mut pairs, "minimum", optional_number_json(&declared.minimum));
    push_pair(&mut pairs, "maximum", optional_number_json(&declared.maximum));
    push_pair(&mut pairs, "choices", record_choices(&declared.choices));
    push_pair(
        &mut pairs,
        "choice_source",
        match declared.choice_source {
            Some(ChoiceSource::ProviderProfiles) => Json::Text("provider-profiles".to_owned()),
            None => Json::Null,
        },
    );
    push_pair(&mut pairs, "list", record_list(&declared.list));
    push_pair(
        &mut pairs,
        "resource",
        match declared.resource {
            Some(ResourceKind::Characters) => Json::Text("characters".to_owned()),
            Some(ResourceKind::ProviderProfiles) => Json::Text("provider-profiles".to_owned()),
            None => Json::Null,
        },
    );
    object(pairs)
}

/// Why a declaration is refused: with a message, or because it was made for
/// another component.
pub enum Refusal {
    Message(Seq<char>),
    Digest,
}

/// An error stands for a refusal.
pub open spec fn stands_for(error: PluginError, refusal: Refusal) -> bool {
    match refusal {
        Refusal::Message(m) => refuses(error, m),
        Refusal::Digest => error == PluginError::DigestMismatch,
    }
}

/// Why a setting of a group, from the one at `from` on, is refused, where
/// `seen` are the settings of earlier groups.
pub open spec fn group_fields_error(
    properties: Seq<(Seq<char>, JsonView)>,
    fields: Seq<Seq<char>>,
    seen: Seq<Seq<char>>,
    from: int,
) -> Option<Seq<char>>
    decreases fields.len() - from,
{
    if from < 0 || from >= fields.len() {
        None
    } else if seen.contains(fields[from]) {
        Some("duplicate interaction field '"@ + fields[from] + "'"@)
    } else if member(properties, fields[from]) is None {
        Some(field_message(fields[from], "' is not a property"@))
    } else if field_error(fields[from], member(properties, fields[from])->0) is Some {
        field_error(fields[from], member(properties, fields[from])->0)
    } else {
        group_fields_error(properties, fields, seen.push(fields[from]), from + 1)
    }
}

/// The settings of the first `count` groups, in order.
pub open spec fn grouped(groups: Seq<DeclaredGroup>, count: int) -> Seq<Seq<char>>
    decreases count,
{
    if count <= 0 || count > groups.len() {
        Seq::empty()
    } else {
        grouped(groups, count - 1) + views(groups[count - 1].fields@)
    }
}

/// Why a group, from the one at `from` on, is refused.
pub open spec fn groups_error(
    properties: Seq<(Seq<char>, JsonView)>,
    groups: Seq<DeclaredGroup>,
    from: int,
) -> Option<Seq<char>>
    decreases groups.len() - from,
{
    if from < 0 || from >= groups.len() {
        None
    } else if blank(groups[from].label@) || blank(groups[from].help@) {
        Some("interaction groups require label and help"@)
    } else if group_fields_error(
        properties,
        views(groups[from].fields@),
        grouped(groups, from),
        0,
    ) is Some {
        group_fields_error(properties, views(groups[from].fields@), grouped(groups, from), 0)
    } else {
        groups_error(properties, groups, from + 1)
    }
}

/// The settings are those of the first groups, each as its schema says.
pub open spec fn are_fields(
    fields: Seq<(String, DeclaredField)>,
    properties: Seq<(Seq<char>, JsonView)>,
    names: Seq<Seq<char>>,
) -> bool {
    &&& assoc::ascending(fields)
    &&& forall|i: int|
        0 <= i < fields.len() ==> names.contains((#[trigger] fields[i]).0@) && is_field(
            fields[i].1,
            fields[i].0@,
            member(properties, fields[i].0@)->0,
        )
    &&& forall|j: int| 0 <= j < names.len() ==> assoc::has(fields, #[trigger] names[j])
}

#[verifier::spinoff_prover]
#[verifier::rlimit(60)]
proof fn lemma_are_fields_push(
    fields: Seq<(String, DeclaredField)>,
    properties: Seq<(Seq<char>, JsonView)>,
    names: Seq<Seq<char>>,
    name: String,
    declared: DeclaredField,
)
    requires
        are_fields(fields, properties, names),
        is_field(declared, name@, member(properties, name@)->0),
        !names.contains(name@),
    ensures
        are_fields(assoc::with_entry(fields, name, declared), properties, names.push(name@)),
{
    let after = assoc::with_entry(fields, name, declared);
    let all = names.push(name@);
    assoc::lemma_with_entry_ascending(fields, name, declared);
    assoc::lemma_index_of(fields, name@);
    assoc::lemma_rank(fields, name@);
    let at = assoc::index_of(fields, name@);
    let k = assoc::rank(fields, name@);
    assert(at == fields.len()) by {
        if at < fields.len() {
            assert(names.contains(fields[at].0@));
        }
    }
    assert forall|i: int| 0 <= i < after.len() implies all.contains((#[trigger] after[i]).0@)
        && is_field(after[i].1, after[i].0@, member(properties, after[i].0@)->0) by {
        if i == k {
            assert(all[names.len() as int] == name@);
        } else {
            let old_i = if i < k {
                i
            } else {
                i - 1
            };
            assert(after[i] == fields[old_i]);
            let x = choose|x: int| 0 <= x < names.len() && names[x] == fields[old_i].0@;
            assert(all[x] == after[i].0@);
        }
    }
    assert forall|j: int| 0 <= j < all.len() implies assoc::has(after, #[trigger] all[j]) by {
        if j < names.len() {
            assert(all[j] == names[j]);
            assert(assoc::has(fields, names[j]));
            let x = choose|x: int|
                0 <= x < fields.len() && (#[trigger] fields[x]).0@ == names[j];
            if x < k {
                assert(after[x] == fields[x]);
            } else {
                assert(after[x + 1] == fields[x]);
            }
        } else {
            assert(after[k].0@ == name@);
        }
    }
}

fn parse_groups(properties: &Vec<(String, Json)>, groups: &Vec<DeclaredGroup>) -> (r: Result<
    Vec<(String, DeclaredField)>,
    PluginError,
>)
    requires
        ordered(JsonView::Object(members_view(properties@))),
    ensures
        ({
            let p = members_view(properties@);
            match r {
                Ok(fields) => groups_error(p, groups@, 0) is None && are_fields(
                    fields@,
                    p,
                    grouped(groups@, groups@.len() as int),
                ),
                Err(e) => groups_error(p, groups@, 0) is Some && refuses(
                    e,
                    groups_error(p, groups@, 0)->0,
                ),
            }
        }),
{
    let ghost p = members_view(properties@);
    let mut fields: Vec<(String, DeclaredField)> = Vec::new();
    let mut seen: Vec<String> = Vec::new();
    let mut g: usize = 0;
    proof {
        assert(views(seen@) =~= grouped(groups@, 0));
    }
    while g < groups.len()
        invariant
            g <= groups@.len(),
            p == members_view(properties@),
            ordered(JsonView::Object(p)),
            views(seen@) == grouped(groups@, g as int),
            are_fields(fields@, p, views(seen@)),
            groups_error(p, groups@, 0) == groups_error(p, groups@, g as int),
        decreases groups@.len() - g,
    {
        let group = &groups[g];
        if text::is_blank(group.label.as_str()) || text::is_blank(group.help.as_str()) {
            return Err(invalid("interaction groups require label and help".to_owned()));
        }
        let ghost names = views(group.fields@);
        let ghost earlier = grouped(groups@, g as int);
        let mut i: usize = 0;
        proof {
            assert(views(seen@) =~= earlier + names.take(0));
        }
        while i < group.fields.len()
            invariant
                g < groups@.len(),
                *group == groups@[g as int],
                i <= group.fields@.len(),
                names == views(group.fields@),
                earlier == grouped(groups@, g as int),
                p == members_view(properties@),
                ordered(JsonView::Object(p)),
                views(seen@) == earlier + names.take(i as int),
                are_fields(fields@, p, views(seen@)),
                groups_error(p, groups@, 0) == groups_error(p, groups@, g as int),
                !blank(group.label@) && !blank(group.help@),
                group_fields_error(p, names, earlier, 0) == group_fields_error(
                    p,
                    names,
                    views(seen@),
                    i as int,
                ),
            decreases group.fields@.len() - i,
        {
            let property = &group.fields[i];
            proof {
                assert(names[i as int] == property@);
            }
            if text::contains_text(&seen, property.as_str()) {
                let mut message = "duplicate interaction field '".to_owned();
                message.push_str(property.as_str());
                message.push_str("'");
                return Err(invalid(message));
            }
            let source = match find_member(properties, property.as_str()) {
                Some(source) => source,
                None => {
                    return Err(field_fault(property.as_str(), "' is not a property"));
                },
            };
            proof {
                lemma_member_ordered(p, property@);
            }
            let declared = match parse_field(property.as_str(), source) {
                Ok(declared) => declared,
                Err(e) => {
                    return Err(e);
                },
            };
            proof {
                lemma_are_fields_push(fields@, p, views(seen@), *property, declared);
                lemma_views_push(seen@, *property);
                assert(views(seen@).push(property@) =~= earlier + names.take(i + 1));
            }
            assoc::set(&mut fields, property.clone(), declared);
            seen.push(property.clone());
            i = i + 1;
        }
        g = g + 1;
        proof {
            assert(names.take(names.len() as int) =~= names);
        }
    }
    Ok(fields)
}

/// A reason that says something.
pub open spec fn given(reason: Option<String>) -> bool {
    reason is Some && (reason->0)@.len() > 0
}

fn is_given(reason: &Option<String>) -> (r: bool)
    ensures
        r == given(*reason),
{
    match reason {
        Some(t) => !t.as_str().is_empty(),
        None => false,
    }
}

/// The identities of the first `count` actions.
pub open spec fn action_ids(actions: Seq<DeclaredAction>, count: int) -> Seq<Seq<char>> {
    Seq::new(count as nat, |i: int| actions[i].id@)
}

/// Why one action is refused, where `seen` are the identities of earlier ones.
pub open spec fn action_error(
    manifest: PluginManifest,
    action: DeclaredAction,
    seen: Seq<Seq<char>>,
) -> Option<Seq<char>> {
    if seen.contains(action.id@) {
        Some("duplicate interaction action '"@ + action.id@ + "'"@)
    } else if blank(action.id@) || blank(action.label@) || blank(action.help@) {
        Some("interaction actions require id, label, and help"@)
    } else if action.support.executable() && action.command is None {
        Some("executable interaction action '"@ + action.id@ + "' requires a command"@)
    } else if action.support.executable() && !views(manifest.commands@).contains(
        (action.command->0)@,
    ) {
        Some(
            "interaction action '"@ + action.id@ + "' binds undeclared command '"@ + (
            action.command->0)@ + "'"@,
        )
    } else if !action.support.executable() && action.command is Some {
        Some(
            "non-executable interaction action '"@ + action.id@ + "' must not bind a command"@,
        )
    } else if action.support != InteractionSupport::Available && !given(action.support_reason) {
        Some(
            "non-available interaction action '"@ + action.id@ + "' requires a concrete reason"@,
        )
    } else if !within(action.capabilities@, manifest.requested_capabilities@) {
        Some(
            "interaction action '"@ + action.id@ + "' requires undeclared capabilities"@,
        )
    } else {
        None
    }
}

/// Why an action, from the one at `from` on, is refused.
pub open spec fn actions_error(
    manifest: PluginManifest,
    actions: Seq<DeclaredAction>,
    from: int,
) -> Option<Seq<char>>
    decreases actions.len() - from,
{
    if from < 0 || from >= actions.len() {
        None
    } else if action_error(manifest, actions[from], action_ids(actions, from)) is Some {
        action_error(manifest, actions[from], action_ids(actions, from))
    } else {
        actions_error(manifest, actions, from + 1)
    }
}

fn action_fault(head: &str, id: &str, tail: &str) -> (error: PluginError)
    ensures
        refuses(error, head@ + id@ + tail@),
{
    let mut message = head.to_owned();
    message.push_str(id);
    message.push_str(tail);
    invalid(message)
}

fn check_action(manifest: &PluginManifest, action: &DeclaredAction, seen: &Vec<String>) -> (r:
    Result<(), PluginError>)
    ensures
        ({
            let error = action_error(*manifest, *action, views(seen@));
            match r {
                Ok(_) => error is None,
                Err(e) => error is Some && refuses(e, error->0),
            }
        }),
{
    let id = action.id.as_str();
    if text::contains_text(seen, id) {
        return Err(action_fault("duplicate interaction action '", id, "'"));
    }
    if text::is_blank(id) || text::is_blank(action.label.as_str()) || text::is_blank(
        action.help.as_str(),
    ) {
        return Err(invalid("interaction actions require id, label, and help".to_owned()));
    }
    if action.support.is_executable() {
        match &action.command {
            None => {
                return Err(
                    action_fault("executable interaction action '", id, "' requires a command"),
                );
            },
            Some(command) => {
                if !text::contains_text(&manifest.commands, command.as_str()) {
                    let mut message = "interaction action '".to_owned();
                    message.push_str(id);
                    message.push_str("' binds undeclared command '");
                    message.push_str(command.as_str());
                    message.push_str("'");
                    return Err(invalid(message));
                }
            },
        }
    } else if action.command.is_some() {
        return Err(
            action_fault("non-executable interaction action '", id, "' must not bind a command"),
        );
    }
    if action.support != InteractionSupport::Available && !is_given(&action.support_reason) {
        return Err(
            action_fault("non-available interaction action '", id, "' requires a concrete reason"),
        );
    }
    if !is_within(&action.capabilities, &manifest.requested_capabilities) {
        return Err(action_fault("interaction action '", id, "' requires undeclared capabilities"));
    }
    Ok(())
}

fn check_actions(manifest: &PluginManifest, actions: &Vec<DeclaredAction>) -> (r: Result<
    (),
    PluginError,
>)
    ensures
        match r {
            Ok(_) => actions_error(*manifest, actions@, 0) is None,
            Err(e) => actions_error(*manifest, actions@, 0) is Some && refuses(
                e,
                actions_error(*manifest, actions@, 0)->0,
            ),
        },
{
    let mut seen: Vec<String> = Vec::new();
    let mut i: usize = 0;
    proof {
        assert(views(seen@) =~= action_ids(actions@, 0));
    }
    while i < actions.len()
        invariant
            i <= actions@.len(),
            views(seen@) == action_ids(actions@, i as int),
            actions_error(*manifest, actions@, 0) == actions_error(
                *manifest,
                actions@,
                i as int,
            ),
        decreases actions@.len() - i,
    {
        match check_action(manifest, &actions[i], &seen) {
            Ok(_) => {},
            Err(e) => {
                return Err(e);
            },
        }
        proof {
            lemma_views_push(seen@, actions@[i as int].id);
            assert(views(seen@).push(actions@[i as int].id@) =~= action_ids(actions@, i + 1));
        }
        seen.push(actions[i].id.clone());
        i = i + 1;
    }
    Ok(())
}

/// How groups are recorded.
pub open spec fn recorded_groups(groups: Seq<DeclaredGroup>) -> Seq<JsonView>
    decreases groups.len(),
{
    if groups.len() == 0 {
        Seq::empty()
    } else {
        let group = groups.last();
        recorded_groups(groups.drop_last()).push(
            JsonView::Object(
                object_of(
                    named()
                        .push(("label"@, JsonView::Text(group.label@)))
                        .push(("help"@, JsonView::Text(group.help@)))
                        .push(("fields"@, texts_array(views(group.fields@)))),
                ),
            ),
        )
    }
}

/// How settings are recorded.
pub open spec fn recorded_fields(fields: Seq<(String, DeclaredField)>) -> Seq<
    (Seq<char>, JsonView),
>
    decreases fields.len(),
{
    if fields.len() == 0 {
        Seq::empty()
    } else {
        recorded_fields(fields.drop_last()).push(
            (fields.last().0@, recorded_field(fields.last().1)),
        )
    }
}

/// Whether a list names a capability, in the order in which capabilities are
/// recorded.
pub open spec fn recorded_capability(
    capabilities: Seq<PluginCapability>,
    capability: PluginCapability,
) -> Seq<JsonView> {
    if capabilities.contains(capability) {
        seq![JsonView::Text(capability.name())]
    } else {
        Seq::empty()
    }
}

/// How a set of capabilities is recorded: each once, in a fixed order.
pub open spec fn recorded_capabilities(capabilities: Seq<PluginCapability>) -> JsonView {
    JsonView::Array(
        recorded_capability(capabilities, PluginCapability::ObserveLifecycle)
            + recorded_capability(capabilities, PluginCapability::RegisterMacro)
            + recorded_capability(capabilities, PluginCapability::RegisterCommand)
            + recorded_capability(capabilities, PluginCapability::ContributePrompt)
            + recorded_capability(capabilities, PluginCapability::ReadSession)
            + recorded_capability(capabilities, PluginCapability::WriteOwnState)
            + recorded_capability(capabilities, PluginCapability::AbortPreRequest)
            + recorded_capability(capabilities, PluginCapability::InspectArtifact)
            + recorded_capability(capabilities, PluginCapability::BrokeredEgress)
            + recorded_capability(capabilities, PluginCapability::InferenceCapability)
            + recorded_capability(capabilities, PluginCapability::ArtifactCodec),
    )
}

fn push_capability(
    items: &mut Vec<Json>,
    capabilities: &Vec<PluginCapability>,
    capability: PluginCapability,
)
    ensures
        items_view(final(items)@) == items_view(old(items)@) + recorded_capability(
            capabilities@,
            capability,
        ),
{
    let ghost before = items_view(items@);
    if has_capability(capabilities, capability) {
        push_item(items, Json::Text(capability.as_str().to_owned()));
    }
    proof {
        assert(items_view(items@) =~= before + recorded_capability(capabilities@, capability));
    }
}

fn record_capabilities(capabilities: &Vec<PluginCapability>) -> (json: Json)
    ensures
        json@ == recorded_capabilities(capabilities@),
{
    let mut items = no_items();
    push_capability(&mut items, capabilities, PluginCapability::ObserveLifecycle);
    proof {
        assert(items_view(items@) =~= recorded_capability(
            capabilities@,
            PluginCapability::ObserveLifecycle,
        ));
    }
    push_capability(&mut items, capabilities, PluginCapability::RegisterMacro);
    push_capability(&mut items, capabilities, PluginCapability::RegisterCommand);
    push_capability(&mut items, capabilities, PluginCapability::ContributePrompt);
    push_capability(&mut items, capabilities, PluginCapability::ReadSession);
    push_capability(&mut items, capabilities, PluginCapability::WriteOwnState);
    push_capability(&mut items, capabilities, PluginCapability::AbortPreRequest);
    push_capability(&mut items, capabilities, PluginCapability::InspectArtifact);
    push_capability(&mut items, capabilities, PluginCapability::BrokeredEgress);
    push_capability(&mut items, capabilities, PluginCapability::InferenceCapability);
    push_capability(&mut items, capabilities, PluginCapability::ArtifactCodec);
    array(items)
}

/// How actions are recorded.
pub open spec fn recorded_actions(actions: Seq<DeclaredAction>) -> Seq<JsonView>
    decreases actions.len(),
{
    if actions.len() == 0 {
        Seq::empty()
    } else {
        let action = actions.last();
        recorded_actions(actions.drop_last()).push(
            JsonView::Object(
                object_of(
                    named()
                        .push(("id"@, JsonView::Text(action.id@)))
                        .push(("label"@, JsonView::Text(action.label@)))
                        .push(("help"@, JsonView::Text(action.help@)))
                        .push(("command"@, text_or_null(option_view(action.command))))
                        .push(("support"@, JsonView::Text(action.support.name())))
                        .push(("support_reason"@, text_or_null(option_view(action.support_reason))))
                        .push(("requires_branch"@, JsonView::Bool(action.requires_branch)))
                        .push((
                            "requires_completed_attempt"@,
                            JsonView::Bool(action.requires_completed_attempt),
                        ))
                        .push(("capabilities"@, recorded_capabilities(action.capabilities@))),
                ),
            ),
        )
    }
}

fn record_groups(groups: &Vec<DeclaredGroup>) -> (json: Json)
    ensures
        json@ == JsonView::Array(recorded_groups(groups@)),
{
    let mut items = no_items();
    let mut i: usize = 0;
    proof {
        assert(groups@.take(0) =~= Seq::empty());
    }
    while i < groups.len()
        invariant
            i <= groups@.len(),
            items_view(items@) == recorded_groups(groups@.take(i as int)),
        decreases groups@.len() - i,
    {
        let mut pairs = no_pairs();
        push_text(&mut pairs, "label", groups[i].label.as_str());
        push_text(&mut pairs, "help", groups[i].help.as_str());
        push_pair(&mut pairs, "fields", text_array(&groups[i].fields));
        push_item(&mut items, object(pairs));
        proof {
            assert(groups@.take(i + 1).drop_last() =~= groups@.take(i as int));
            assert(groups@.take(i + 1).last() == groups@[i as int]);
        }
        i = i + 1;
    }
    proof {
        assert(groups@.take(groups@.len() as int) =~= groups@);
    }
    array(items)
}

fn record_fields(fields: &Vec<(String, DeclaredField)>) -> (json: Json)
    ensures
        json@ == JsonView::Object(object_of(recorded_fields(fields@))),
{
    let mut pairs = no_pairs();
    let mut i: usize = 0;
    proof {
        assert(fields@.take(0) =~= Seq::empty());
    }
    while i < fields.len()
        invariant
            i <= fields@.len(),
            members_view(pairs@) == recorded_fields(fields@.take(i as int)),
        decreases fields@.len() - i,
    {
        push_pair(&mut pairs, fields[i].0.as_str(), record_field(&fields[i].1));
        proof {
            assert(fields@.take(i + 1).drop_last() =~= fields@.take(i as int));
            assert(fields@.take(i + 1).last() == fields@[i as int]);
        }
        i = i + 1;
    }
    proof {
        assert(fields@.take(fields@.len() as int) =~= fields@);
    }
    object(pairs)
}

fn record_actions(actions: &Vec<DeclaredAction>) -> (json: Json)
    ensures
        json@ == JsonView::Array(recorded_actions(actions@)),
{
    let mut items = no_items();
    let mut i: usize = 0;
    proof {
        assert(actions@.take(0) =~= Seq::empty());
    }
    while i < actions.len()
        invariant
            i <= actions@.len(),
            items_view(items@) == recorded_actions(actions@.take(i as int)),
        decreases actions@.len() - i,
    {
        let action = &actions[i];
        let mut pairs = no_pairs();
        push_text(&mut pairs, "id", action.id.as_str());
        push_text(&mut pairs, "label", action.label.as_str());
        push_text(&mut pairs, "help", action.help.as_str());
        push_pair(&mut pairs, "command", optional_text(&action.command));
        push_text(&mut pairs, "support", action.support.as_str());
        push_pair(&mut pairs, "support_reason", optional_text(&action.support_reason));
        push_pair(&mut pairs, "requires_branch", Json::Bool(action.requires_branch));
        push_pair(
            &mut pairs,
            "requires_completed_attempt",
            Json::Bool(action.requires_completed_attempt),
        );
        push_pair(&mut pairs, "capabilities", record_capabilities(&action.capabilities));
        push_item(&mut items, object(pairs));
        proof {
            assert(actions@.take(i + 1).drop_last() =~= actions@.take(i as int));
            assert(actions@.take(i + 1).last() == actions@[i as int]);
        }
        i = i + 1;
    }
    proof {
        assert(actions@.take(actions@.len() as int) =~= actions@);
    }
    array(items)
}

/// The JSON value that a declaration is hashed by.
pub open spec fn recorded_declaration(
    component: Seq<u8>,
    annotation: Annotation,
    fields: Seq<(String, DeclaredField)>,
) -> JsonView {
    JsonView::Object(
        object_of(
            named()
                .push(("schema"@, JsonView::Text(INTERACTION_SCHEMA@)))
                .push(("id"@, JsonView::Text(annotation.id@)))
                .push(("component_sha256"@, JsonView::Text(hash_text(component))))
                .push(("support"@, JsonView::Text(annotation.support.name())))
                .push(("support_reason"@, text_or_null(option_view(annotation.support_reason))))
                .push(("groups"@, JsonView::Array(recorded_groups(annotation.groups@))))
                .push(("fields"@, JsonView::Object(object_of(recorded_fields(fields)))))
                .push(("actions"@, JsonView::Array(recorded_actions(annotation.actions@)))),
        ),
    )
}

/// Why a settings schema with an annotation is refused as a declaration, where
/// `parsed` is what reading the annotation came to.
pub open spec fn declaration_error(
    manifest: PluginManifest,
    schema: JsonView,
    parsed: Result<Annotation, String>,
) -> Option<Refusal> {
    let properties = as_members(field(schema, "properties"@));
    if manifest.runtime != PluginRuntime::StBridge {
        Some(Refusal::Message("declared interactions require st-bridge runtime"@))
    } else if as_text(field(schema, "type"@)) != Some("object"@) {
        Some(Refusal::Message("declared interaction schema must be an object"@))
    } else if properties is None {
        Some(Refusal::Message("declared interaction schema requires object properties"@))
    } else {
        match parsed {
            Err(message) => Some(
                Refusal::Message("invalid interaction annotation: "@ + message@),
            ),
            Ok(annotation) => if annotation.schema@ != INTERACTION_SCHEMA@ {
                Some(
                    Refusal::Message(
                        "unsupported interaction schema '"@ + annotation.schema@ + "'"@,
                    ),
                )
            } else if annotation.component_sha256@ != manifest.component_sha256@ {
                Some(Refusal::Digest)
            } else if blank(annotation.id@) {
                Some(Refusal::Message("interaction id must not be empty"@))
            } else if annotation.support != InteractionSupport::Available && !given(
                annotation.support_reason,
            ) {
                Some(
                    Refusal::Message(
                        "non-available interaction support requires a concrete reason"@,
                    ),
                )
            } else if groups_error(properties->0, annotation.groups@, 0) is Some {
                Some(Refusal::Message(groups_error(properties->0, annotation.groups@, 0)->0))
            } else if actions_error(manifest, annotation.actions@, 0) is Some {
                Some(Refusal::Message(actions_error(manifest, annotation.actions@, 0)->0))
            } else {
                None
            },
        }
    }
}

/// A declaration says what an accepted annotation and schema say.
pub open spec fn is_declaration(
    declaration: InteractionDeclaration,
    manifest: PluginManifest,
    schema: JsonView,
    annotation: Annotation,
) -> bool {
    let properties = as_members(field(schema, "properties"@))->0;
    &&& declaration.id == annotation.id
    &&& canonical_hash_of(
        DECLARATION_DOMAIN@,
        recorded_declaration(manifest.component_sha256@, annotation, declaration.fields@),
    ) == Some(declaration.hash@)
    &&& declaration.support == annotation.support
    &&& declaration.support_reason == annotation.support_reason
    &&& are_fields(
        declaration.fields@,
        properties,
        grouped(annotation.groups@, annotation.groups@.len() as int),
    )
    &&& declaration.groups == annotation.groups
    &&& declaration.actions == annotation.actions
}

/// What an accepted annotation and schema declare has no canonical form.
pub open spec fn has_no_hash(
    manifest: PluginManifest,
    schema: JsonView,
    annotation: Annotation,
) -> bool {
    exists|fields: Seq<(String, DeclaredField)>|
        #[trigger] are_fields(
            fields,
            as_members(field(schema, "properties"@))->0,
            grouped(annotation.groups@, annotation.groups@.len() as int),
        ) && canonical_hash_of(
            DECLARATION_DOMAIN@,
            recorded_declaration(manifest.component_sha256@, annotation, fields),
        ) is None
}

/// Makes a declaration of a settings schema and its annotation, where `parsed`
/// is what reading the annotation came to. A schema without annotation
/// declares nothing.
pub fn load_declaration(
    manifest: &PluginManifest,
    schema: &Json,
    parsed: Result<Annotation, String>,
) -> (r: Result<Option<InteractionDeclaration>, PluginError>)
    requires
        ordered(schema@),
    ensures
        match r {
            Ok(None) => field(schema@, "x-stcli-interaction"@) is None,
            Ok(Some(declaration)) => {
                &&& field(schema@, "x-stcli-interaction"@) is Some
                &&& declaration_error(*manifest, schema@, parsed) is None
                &&& is_declaration(declaration, *manifest, schema@, parsed->Ok_0)
            },
            Err(e) => {
                &&& field(schema@, "x-stcli-interaction"@) is Some
                &&& match declaration_error(*manifest, schema@, parsed) {
                    Some(refusal) => stands_for(e, refusal),
                    None => e == PluginError::Canonicalize && has_no_hash(
                        *manifest,
                        schema@,
                        parsed->Ok_0,
                    ),
                }
            },
        },
{
    if schema.get("x-stcli-interaction").is_none() {
        return Ok(None);
    }
    if manifest.runtime != PluginRuntime::StBridge {
        return Err(invalid("declared interactions require st-bridge runtime".to_owned()));
    }
    let is_object = match schema.get("type") {
        Some(Json::Text(name)) => text::same(name.as_str(), "object"),
        _ => false,
    };
    if !is_object {
        return Err(invalid("declared interaction schema must be an object".to_owned()));
    }
    let properties = match schema.get("properties") {
        Some(value) => value.members(),
        None => None,
    };
    let properties = match properties {
        Some(properties) => properties,
        None => {
            return Err(
                invalid("declared interaction schema requires object properties".to_owned()),
            );
        },
    };
    proof {
        assert(schema@ is Object);
        lemma_member_ordered(schema@->Object_0, "properties"@);
    }
    let annotation = match parsed {
        Ok(annotation) => annotation,
        Err(text) => {
            let mut message = "invalid interaction annotation: ".to_owned();
            message.push_str(text.as_str());
            return Err(invalid(message));
        },
    };
    if !text::same(annotation.schema.as_str(), INTERACTION_SCHEMA) {
        let mut message = "unsupported interaction schema '".to_owned();
        message.push_str(annotation.schema.as_str());
        message.push_str("'");
        return Err(invalid(message));
    }
    if !annotation.component_sha256.same(&manifest.component_sha256) {
        return Err(PluginError::DigestMismatch);
    }
    if text::is_blank(annotation.id.as_str()) {
        return Err(invalid("interaction id must not be empty".to_owned()));
    }
    if annotation.support != InteractionSupport::Available && !is_given(
        &annotation.support_reason,
    ) {
        return Err(
            invalid("non-available interaction support requires a concrete reason".to_owned()),
        );
    }
    let fields = match parse_groups(properties, &annotation.groups) {
        Ok(fields) => fields,
        Err(e) => {
            return Err(e);
        },
    };
    match check_actions(manifest, &annotation.actions) {
        Ok(_) => {},
        Err(e) => {
            return Err(e);
        },
    }
    let mut pairs = no_pairs();
    push_text(&mut pairs, "schema", INTERACTION_SCHEMA);
    push_text(&mut pairs, "id", annotation.id.as_str());
    push_text(&mut pairs, "component_sha256", manifest.component_sha256.text().as_str());
    push_text(&mut pairs, "support", annotation.support.as_str());
    push_pair(&mut pairs, "support_reason", optional_text(&annotation.support_reason));
    push_pair(&mut pairs, "groups", record_groups(&annotation.groups));
    push_pair(&mut pairs, "fields", record_fields(&fields));
    push_pair(&mut pairs, "actions", record_actions(&annotation.actions));
    let value = object(pairs);
    proof {
        assert(value@ == recorded_declaration(manifest.component_sha256@, annotation, fields@));
    }
    match canonical_json_hash(DECLARATION_DOMAIN, &value) {
        Ok(hash) => Ok(
            Some(
                InteractionDeclaration {
                    id: annotation.id,
                    hash,
                    support: annotation.support,
                    support_reason: annotation.support_reason,
                    fields,
                    groups: annotation.groups,
                    actions: annotation.actions,
                },
            ),
        ),
        Err(_) => Err(PluginError::Canonicalize),
    }
}

/// Checks the size of a settings schema before it is read.
pub fn check_schema_size(bytes: usize) -> (r: Result<(), PluginError>)
    ensures
        match r {
            Ok(_) => bytes <= 262144,
            Err(e) => bytes > 262144 && e == PluginError::InputLimit,
        },
{
    if bytes > PluginLimits::default().input_bytes {
        return Err(PluginError::InputLimit);
    }
    Ok(())
}

} // verus!

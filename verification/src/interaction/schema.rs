//! Settings as a schema declares them.
use vstd::prelude::*;

use crate::interaction::value::{InteractionValue, representable, value_json};
use crate::json::{
    as_items, as_members, as_text, equal_json, find_member, has_equal, items_view, Json, JsonNumber, JsonNumberView,
    JsonView, lemma_member_ordered, member, members_view, NumberForm, ordered,
};
use crate::plugin::PluginError;
use crate::text::{self, at_most, blank};

verus! {

/// How a setting is shown.
#[derive(Clone, Copy, Debug, Eq, PartialEq, Structural)]
pub enum InteractionControl {
    Boolean,
    Number,
    Text,
    MultilineText,
    Choice,
    OrderedList,
    ResourceSelector,
}

/// The type of a setting.
#[derive(Clone, Copy, Debug, Eq, PartialEq, Structural)]
pub enum FieldKind {
    Boolean,
    Integer,
    Number,
    Text,
    Array,
}

/// Where the choices of a setting come from.
#[derive(Clone, Copy, Debug, Eq, PartialEq, Structural)]
pub enum ChoiceSource {
    ProviderProfiles,
}

/// What a resource selector selects from.
#[derive(Clone, Copy, Debug, Eq, PartialEq, Structural)]
pub enum ResourceKind {
    Characters,
    ProviderProfiles,
}

/// A choice that a schema lists.
#[derive(Debug, Eq, PartialEq)]
pub struct DeclaredChoice {
    pub value: InteractionValue,
    pub label: String,
}

/// A field of the items of an ordered list.
#[derive(Clone, Debug, Eq, PartialEq)]
pub struct DeclaredListField {
    pub property: String,
    pub label: String,
    pub control: InteractionControl,
    pub kind: FieldKind,
}

/// The items of an ordered list.
#[derive(Clone, Debug, Eq, PartialEq)]
pub struct DeclaredList {
    pub item_id: String,
    pub fields: Vec<DeclaredListField>,
}

/// A setting that a schema declares.
#[derive(Debug, Eq, PartialEq)]
pub struct DeclaredField {
    pub property: String,
    pub label: String,
    pub help: String,
    pub control: InteractionControl,
    pub kind: FieldKind,
    pub default: InteractionValue,
    pub minimum: Option<JsonNumber>,
    pub maximum: Option<JsonNumber>,
    pub choices: Vec<DeclaredChoice>,
    pub choice_source: Option<ChoiceSource>,
    pub list: Option<DeclaredList>,
    pub resource: Option<ResourceKind>,
}

/// The refusal of a manifest with a message, of which the first 256 characters
/// are kept.
pub open spec fn refuses(error: PluginError, message: Seq<char>) -> bool {
    error is InvalidManifest && error->InvalidManifest_0@ == at_most(message, 256)
}

/// The first 256 characters of a message.
pub fn bounded(message: String) -> (r: String)
    ensures
        r@ == at_most(message@, 256),
{
    text::take_chars(message.as_str(), 256)
}

pub(crate) fn invalid(message: String) -> (error: PluginError)
    ensures
        refuses(error, message@),
{
    PluginError::InvalidManifest(bounded(message))
}

/// A message about a setting.
pub open spec fn field_message(property: Seq<char>, tail: Seq<char>) -> Seq<char> {
    "interaction field '"@ + property + tail
}

/// A message about something that a setting names.
pub open spec fn field_message_about(
    property: Seq<char>,
    middle: Seq<char>,
    about: Seq<char>,
) -> Seq<char> {
    "interaction field '"@ + property + middle + about + "'"@
}

pub(crate) fn field_fault(property: &str, tail: &str) -> (error: PluginError)
    ensures
        refuses(error, field_message(property@, tail@)),
{
    let mut message = "interaction field '".to_owned();
    message.push_str(property);
    message.push_str(tail);
    invalid(message)
}

fn field_fault_about(property: &str, middle: &str, about: &str) -> (error: PluginError)
    ensures
        refuses(error, field_message_about(property@, middle@, about@)),
{
    let mut message = "interaction field '".to_owned();
    message.push_str(property);
    message.push_str(middle);
    message.push_str(about);
    message.push_str("'");
    invalid(message)
}

/// A member that is a text and not blank.
pub open spec fn field_text(members: Seq<(Seq<char>, JsonView)>, key: Seq<char>) -> Option<
    Seq<char>,
> {
    match as_text(member(members, key)) {
        Some(t) => if blank(t) {
            None
        } else {
            Some(t)
        },
        None => None,
    }
}

/// The message about a text that a setting lacks.
pub open spec fn required_message(property: Seq<char>, key: Seq<char>) -> Seq<char> {
    field_message_about(property, "' requires string '"@, key)
}

fn required_string<'a>(
    members: &'a Vec<(String, Json)>,
    key: &str,
    property: &str,
) -> (r: Result<&'a String, PluginError>)
    ensures
        match r {
            Ok(t) => field_text(members_view(members@), key@) == Some(t@),
            Err(e) => field_text(members_view(members@), key@) is None && refuses(
                e,
                required_message(property@, key@),
            ),
        },
{
    match find_member(members, key) {
        Some(Json::Text(t)) => if text::is_blank(t.as_str()) {
            Err(field_fault_about(property, "' requires string '", key))
        } else {
            Ok(t)
        },
        _ => Err(field_fault_about(property, "' requires string '", key)),
    }
}

/// A keyword that a setting's schema may use.
pub open spec fn is_keyword(key: Seq<char>) -> bool {
    ||| key == "type"@
    ||| key == "minimum"@
    ||| key == "maximum"@
    ||| key == "enum"@
    ||| key == "default"@
    ||| key == "title"@
    ||| key == "description"@
    ||| key == "items"@
    ||| key == "x-stcli-control"@
    ||| key == "x-stcli-choice-labels"@
    ||| key == "x-stcli-choice-source"@
    ||| key == "x-stcli-item-id"@
    ||| key == "x-stcli-resource"@
}

fn check_keyword(key: &str) -> (r: bool)
    ensures
        r == is_keyword(key@),
{
    text::same(key, "type") || text::same(key, "minimum") || text::same(key, "maximum")
        || text::same(key, "enum") || text::same(key, "default") || text::same(key, "title")
        || text::same(key, "description") || text::same(key, "items") || text::same(
        key,
        "x-stcli-control",
    ) || text::same(key, "x-stcli-choice-labels") || text::same(key, "x-stcli-choice-source")
        || text::same(key, "x-stcli-item-id") || text::same(key, "x-stcli-resource")
}

/// The first member that is no keyword.
pub open spec fn first_unknown(members: Seq<(Seq<char>, JsonView)>) -> Option<Seq<char>>
    decreases members.len(),
{
    if members.len() == 0 {
        None
    } else if !is_keyword(members[0].0) {
        Some(members[0].0)
    } else {
        first_unknown(members.drop_first())
    }
}

fn find_unknown<'a>(members: &'a Vec<(String, Json)>) -> (r: Option<&'a String>)
    ensures
        match r {
            Some(key) => first_unknown(members_view(members@)) == Some(key@),
            None => first_unknown(members_view(members@)) is None,
        },
{
    let ghost all = members_view(members@);
    let mut i: usize = 0;
    proof {
        assert(all.skip(0) =~= all);
    }
    while i < members.len()
        invariant
            i <= members@.len(),
            all == members_view(members@),
            first_unknown(all) == first_unknown(all.skip(i as int)),
        decreases members@.len() - i,
    {
        proof {
            assert(all.skip(i as int)[0] == all[i as int]);
            assert(all.skip(i as int).drop_first() =~= all.skip(i + 1));
        }
        if !check_keyword(members[i].0.as_str()) {
            return Some(&members[i].0);
        }
        i = i + 1;
    }
    None
}

/// The type that a name stands for.
pub open spec fn kind_named(name: Seq<char>) -> Option<FieldKind> {
    if name == "boolean"@ {
        Some(FieldKind::Boolean)
    } else if name == "integer"@ {
        Some(FieldKind::Integer)
    } else if name == "number"@ {
        Some(FieldKind::Number)
    } else if name == "string"@ {
        Some(FieldKind::Text)
    } else if name == "array"@ {
        Some(FieldKind::Array)
    } else {
        None
    }
}

fn find_kind(name: &str) -> (kind: Option<FieldKind>)
    ensures
        kind == kind_named(name@),
{
    if text::same(name, "boolean") {
        Some(FieldKind::Boolean)
    } else if text::same(name, "integer") {
        Some(FieldKind::Integer)
    } else if text::same(name, "number") {
        Some(FieldKind::Number)
    } else if text::same(name, "string") {
        Some(FieldKind::Text)
    } else if text::same(name, "array") {
        Some(FieldKind::Array)
    } else {
        None
    }
}

/// The control that a name stands for.
pub open spec fn control_named(name: Seq<char>) -> Option<InteractionControl> {
    if name == "boolean"@ {
        Some(InteractionControl::Boolean)
    } else if name == "number"@ {
        Some(InteractionControl::Number)
    } else if name == "text"@ {
        Some(InteractionControl::Text)
    } else if name == "multiline-text"@ {
        Some(InteractionControl::MultilineText)
    } else if name == "choice"@ {
        Some(InteractionControl::Choice)
    } else if name == "ordered-list"@ {
        Some(InteractionControl::OrderedList)
    } else if name == "resource-selector"@ {
        Some(InteractionControl::ResourceSelector)
    } else {
        None
    }
}

fn find_control(name: &str) -> (control: Option<InteractionControl>)
    ensures
        control == control_named(name@),
{
    if text::same(name, "boolean") {
        Some(InteractionControl::Boolean)
    } else if text::same(name, "number") {
        Some(InteractionControl::Number)
    } else if text::same(name, "text") {
        Some(InteractionControl::Text)
    } else if text::same(name, "multiline-text") {
        Some(InteractionControl::MultilineText)
    } else if text::same(name, "choice") {
        Some(InteractionControl::Choice)
    } else if text::same(name, "ordered-list") {
        Some(InteractionControl::OrderedList)
    } else if text::same(name, "resource-selector") {
        Some(InteractionControl::ResourceSelector)
    } else {
        None
    }
}

/// The controls that can show a value of a type.
pub open spec fn compatible(kind: FieldKind, control: InteractionControl) -> bool {
    match control {
        InteractionControl::Choice => true,
        InteractionControl::Boolean => kind == FieldKind::Boolean,
        InteractionControl::Number => kind == FieldKind::Integer || kind == FieldKind::Number,
        InteractionControl::Text => kind == FieldKind::Text,
        InteractionControl::MultilineText => kind == FieldKind::Text,
        InteractionControl::ResourceSelector => kind == FieldKind::Text,
        InteractionControl::OrderedList => kind == FieldKind::Array,
    }
}

/// A value is of a type.
pub open spec fn has_kind(kind: FieldKind, value: JsonView) -> bool {
    match kind {
        FieldKind::Boolean => value is Bool,
        FieldKind::Integer => value is Number && !((value->Number_0).form is Real),
        FieldKind::Number => value is Number,
        FieldKind::Text => value is Text,
        FieldKind::Array => value is Array,
    }
}

pub(crate) fn check_kind(kind: FieldKind, value: &Json) -> (r: bool)
    ensures
        r == has_kind(kind, value@),
{
    match kind {
        FieldKind::Boolean => matches!(value, Json::Bool(_)),
        FieldKind::Integer => match value {
            Json::Number(n) => !matches!(n.form, NumberForm::Real(_)),
            _ => false,
        },
        FieldKind::Number => matches!(value, Json::Number(_)),
        FieldKind::Text => matches!(value, Json::Text(_)),
        FieldKind::Array => matches!(value, Json::Array(_)),
    }
}

/// The type is one of numbers.
pub open spec fn numeric(kind: FieldKind) -> bool {
    kind == FieldKind::Integer || kind == FieldKind::Number
}

/// A value of a numeric type lies within its bounds.
pub open spec fn in_bounds(
    kind: FieldKind,
    value: JsonView,
    minimum: Option<JsonNumberView>,
    maximum: Option<JsonNumberView>,
) -> bool {
    numeric(kind) && value is Number ==> {
        &&& minimum is Some ==> (minimum->0).order <= (value->Number_0).order
        &&& maximum is Some ==> (value->Number_0).order <= (maximum->0).order
    }
}

/// The abstract value of an optional number.
pub open spec fn number_view(number: Option<JsonNumber>) -> Option<JsonNumberView> {
    match number {
        Some(n) => Some(n@),
        None => None,
    }
}

pub(crate) fn check_bounds(
    kind: FieldKind,
    value: &Json,
    minimum: &Option<JsonNumber>,
    maximum: &Option<JsonNumber>,
) -> (r: bool)
    ensures
        r == in_bounds(kind, value@, number_view(*minimum), number_view(*maximum)),
{
    if kind != FieldKind::Integer && kind != FieldKind::Number {
        return true;
    }
    match value {
        Json::Number(n) => {
            let above = match minimum {
                Some(m) => m.order <= n.order,
                None => true,
            };
            let below = match maximum {
                Some(m) => n.order <= m.order,
                None => true,
            };
            above && below
        },
        _ => true,
    }
}

/// The number of a member that is one.
pub open spec fn number_member(members: Seq<(Seq<char>, JsonView)>, key: Seq<char>) -> Option<
    JsonNumberView,
> {
    match member(members, key) {
        Some(JsonView::Number(n)) => Some(n),
        _ => None,
    }
}

fn optional_number(
    members: &Vec<(String, Json)>,
    key: &str,
    property: &str,
    tail: &str,
) -> (r: Result<Option<JsonNumber>, PluginError>)
    ensures
        ({
            let m = members_view(members@);
            match r {
                Ok(n) => number_view(n) == number_member(m, key@) && (member(m, key@) is Some ==> n
                    is Some),
                Err(e) => member(m, key@) is Some && number_member(m, key@) is None && refuses(
                    e,
                    field_message(property@, tail@),
                ),
            }
        }),
{
    match find_member(members, key) {
        None => Ok(None),
        Some(Json::Number(n)) => Ok(Some(n.copy())),
        Some(_) => Err(field_fault(property, tail)),
    }
}

/// Why the type, control, default or bounds of a setting are refused.
pub open spec fn shape_error(property: Seq<char>, members: Seq<(Seq<char>, JsonView)>) -> Option<
    Seq<char>,
> {
    let kind_name = field_text(members, "type"@);
    let kind = kind_named(kind_name->0);
    let control_name = field_text(members, "x-stcli-control"@);
    let control = control_named(control_name->0);
    let default = member(members, "default"@);
    let minimum = number_member(members, "minimum"@);
    let maximum = number_member(members, "maximum"@);
    if first_unknown(members) is Some {
        Some(
            field_message_about(
                property,
                "' uses unsupported keyword '"@,
                first_unknown(members)->0,
            ),
        )
    } else if kind_name is None {
        Some(required_message(property, "type"@))
    } else if kind is None {
        Some(field_message_about(property, "' has unsupported type '"@, kind_name->0))
    } else if control_name is None {
        Some(required_message(property, "x-stcli-control"@))
    } else if control is None {
        Some(field_message_about(property, "' has unsupported control '"@, control_name->0))
    } else if !compatible(kind->0, control->0) {
        Some(field_message(property, "' control does not match its type"@))
    } else if default is None {
        Some(field_message(property, "' requires default"@))
    } else if !has_kind(kind->0, default->0) {
        Some(field_message(property, "' value does not match its type"@))
    } else if !representable(default->0) {
        Some(field_message(property, "' default does not match its control"@))
    } else if member(members, "minimum"@) is Some && minimum is None {
        Some(field_message(property, "' minimum must be a number"@))
    } else if member(members, "maximum"@) is Some && maximum is None {
        Some(field_message(property, "' maximum must be a number"@))
    } else if !numeric(kind->0) && (minimum is Some || maximum is Some) {
        Some(field_message(property, "' has numeric constraints on a non-number"@))
    } else if !in_bounds(kind->0, default->0, minimum, maximum) {
        Some(field_message(property, "' default is outside its bounds"@))
    } else {
        None
    }
}

/// The type, control, default and bounds of a setting.
pub struct FieldShape {
    pub kind: FieldKind,
    pub control: InteractionControl,
    pub default: InteractionValue,
    pub minimum: Option<JsonNumber>,
    pub maximum: Option<JsonNumber>,
}

/// A shape says what the members of a setting's schema say.
pub open spec fn is_shape(shape: FieldShape, members: Seq<(Seq<char>, JsonView)>) -> bool {
    &&& kind_named(field_text(members, "type"@)->0) == Some(shape.kind)
    &&& control_named(field_text(members, "x-stcli-control"@)->0) == Some(shape.control)
    &&& member(members, "default"@) == Some(value_json(shape.default))
    &&& number_member(members, "minimum"@) == number_view(shape.minimum)
    &&& number_member(members, "maximum"@) == number_view(shape.maximum)
}

fn parse_shape(property: &str, members: &Vec<(String, Json)>) -> (r: Result<
    FieldShape,
    PluginError,
>)
    requires
        ordered(JsonView::Object(members_view(members@))),
    ensures
        ({
            let m = members_view(members@);
            match r {
                Ok(shape) => shape_error(property@, m) is None && is_shape(shape, m),
                Err(e) => shape_error(property@, m) is Some && refuses(
                    e,
                    shape_error(property@, m)->0,
                ),
            }
        }),
{
    match find_unknown(members) {
        Some(key) => {
            return Err(field_fault_about(property, "' uses unsupported keyword '", key.as_str()));
        },
        None => {},
    }
    let kind_name = match required_string(members, "type", property) {
        Ok(name) => name,
        Err(e) => {
            return Err(e);
        },
    };
    let kind = match find_kind(kind_name.as_str()) {
        Some(kind) => kind,
        None => {
            return Err(
                field_fault_about(property, "' has unsupported type '", kind_name.as_str()),
            );
        },
    };
    let control_name = match required_string(members, "x-stcli-control", property) {
        Ok(name) => name,
        Err(e) => {
            return Err(e);
        },
    };
    let control = match find_control(control_name.as_str()) {
        Some(control) => control,
        None => {
            return Err(
                field_fault_about(property, "' has unsupported control '", control_name.as_str()),
            );
        },
    };
    let fits = match control {
        InteractionControl::Choice => true,
        InteractionControl::Boolean => kind == FieldKind::Boolean,
        InteractionControl::Number => kind == FieldKind::Integer || kind == FieldKind::Number,
        InteractionControl::Text => kind == FieldKind::Text,
        InteractionControl::MultilineText => kind == FieldKind::Text,
        InteractionControl::ResourceSelector => kind == FieldKind::Text,
        InteractionControl::OrderedList => kind == FieldKind::Array,
    };
    if !fits {
        return Err(field_fault(property, "' control does not match its type"));
    }
    let default_json = match find_member(members, "default") {
        Some(value) => value,
        None => {
            return Err(field_fault(property, "' requires default"));
        },
    };
    if !check_kind(kind, default_json) {
        return Err(field_fault(property, "' value does not match its type"));
    }
    proof {
        lemma_member_ordered(members_view(members@), "default"@);
    }
    let default = match InteractionValue::from_json(default_json) {
        Some(value) => value,
        None => {
            return Err(field_fault(property, "' default does not match its control"));
        },
    };
    let minimum = match optional_number(
        members,
        "minimum",
        property,
        "' minimum must be a number",
    ) {
        Ok(n) => n,
        Err(e) => {
            return Err(e);
        },
    };
    let maximum = match optional_number(
        members,
        "maximum",
        property,
        "' maximum must be a number",
    ) {
        Ok(n) => n,
        Err(e) => {
            return Err(e);
        },
    };
    if kind != FieldKind::Integer && kind != FieldKind::Number && (minimum.is_some()
        || maximum.is_some()) {
        return Err(field_fault(property, "' has numeric constraints on a non-number"));
    }
    if !check_bounds(kind, default_json, &minimum, &maximum) {
        return Err(field_fault(property, "' default is outside its bounds"));
    }
    Ok(FieldShape { kind, control, default, minimum, maximum })
}

/// The choice source that the members of a setting's schema name, where they
/// name one that there is.
pub open spec fn source_named(
    members: Seq<(Seq<char>, JsonView)>,
    kind: FieldKind,
) -> Option<ChoiceSource> {
    if as_text(member(members, "x-stcli-choice-source"@)) == Some("provider-profiles"@) && kind
        == FieldKind::Text {
        Some(ChoiceSource::ProviderProfiles)
    } else {
        None
    }
}

/// Why a listed choice, from the one at `from` on, is refused.
pub open spec fn choice_error(
    property: Seq<char>,
    kind: FieldKind,
    values: Seq<JsonView>,
    labels: Seq<JsonView>,
    from: int,
) -> Option<Seq<char>>
    decreases values.len() - from,
{
    if from < 0 || from >= values.len() || from >= labels.len() {
        None
    } else if !has_kind(kind, values[from]) {
        Some(field_message(property, "' value does not match its type"@))
    } else if !representable(values[from]) {
        Some(field_message(property, "' enum values must be scalar"@))
    } else if !(labels[from] is Text) || blank(labels[from]->Text_0) {
        Some(field_message(property, "' choice labels must be strings"@))
    } else {
        choice_error(property, kind, values, labels, from + 1)
    }
}

/// Why the choices of a setting are refused.
pub open spec fn choices_error(
    property: Seq<char>,
    members: Seq<(Seq<char>, JsonView)>,
    kind: FieldKind,
    control: InteractionControl,
    default: JsonView,
) -> Option<Seq<char>> {
    let listed = member(members, "enum"@);
    let labels = member(members, "x-stcli-choice-labels"@);
    let source_name = as_text(member(members, "x-stcli-choice-source"@));
    let source = source_named(members, kind);
    if listed is Some && as_items(listed) is None {
        Some(field_message(property, "' enum must be an array"@))
    } else if labels is Some && as_items(labels) is None {
        Some(field_message(property, "' choice labels must be an array"@))
    } else if source_name is Some && source is None {
        Some(field_message_about(property, "' has unsupported choice source '"@, source_name->0))
    } else if control != InteractionControl::Choice && (listed is Some || labels is Some || source
        is Some) {
        Some(field_message(property, "' has choice metadata for a non-choice control"@))
    } else if listed is Some && source is Some {
        Some(field_message(property, "' mixes static and dynamic choices"@))
    } else if listed is Some != labels is Some || (listed is Some && as_items(listed)->0.len()
        != as_items(labels)->0.len()) {
        Some(field_message(property, "' requires matching enum values and choice labels"@))
    } else if listed is Some && choice_error(
        property,
        kind,
        as_items(listed)->0,
        as_items(labels)->0,
        0,
    ) is Some {
        choice_error(property, kind, as_items(listed)->0, as_items(labels)->0, 0)
    } else if control == InteractionControl::Choice && source is None && (listed is None
        || as_items(listed)->0.len() == 0) {
        Some(field_message(property, "' choice has no source"@))
    } else if listed is Some && as_items(listed)->0.len() > 0 && !has_equal(
        as_items(listed)->0,
        default,
    ) {
        Some(field_message(property, "' default is not a declared choice"@))
    } else {
        None
    }
}

/// The choices are the listed values with their labels.
pub open spec fn are_choices(choices: Seq<DeclaredChoice>, members: Seq<(Seq<char>, JsonView)>) -> bool {
    match as_items(member(members, "enum"@)) {
        None => choices.len() == 0,
        Some(values) => {
            let labels = as_items(member(members, "x-stcli-choice-labels"@))->0;
            choices.len() == values.len() && forall|i: int|
                0 <= i < choices.len() ==> value_json((#[trigger] choices[i]).value) == values[i]
                    && JsonView::Text(choices[i].label@) == labels[i]
        },
    }
}

fn parse_listed(
    property: &str,
    kind: FieldKind,
    values: &Vec<Json>,
    labels: &Vec<Json>,
) -> (r: Result<Vec<DeclaredChoice>, PluginError>)
    requires
        values@.len() == labels@.len(),
        ordered(JsonView::Array(items_view(values@))),
    ensures
        ({
            let v = items_view(values@);
            let l = items_view(labels@);
            match r {
                Ok(choices) => choice_error(property@, kind, v, l, 0) is None && choices@.len()
                    == v.len() && forall|i: int|
                    0 <= i < choices@.len() ==> value_json((#[trigger] choices@[i]).value) == v[i]
                        && JsonView::Text(choices@[i].label@) == l[i],
                Err(e) => choice_error(property@, kind, v, l, 0) is Some && refuses(
                    e,
                    choice_error(property@, kind, v, l, 0)->0,
                ),
            }
        }),
{
    let ghost v = items_view(values@);
    let ghost l = items_view(labels@);
    let mut choices: Vec<DeclaredChoice> = Vec::new();
    let mut i: usize = 0;
    while i < values.len()
        invariant
            i <= values@.len() == labels@.len(),
            v == items_view(values@),
            l == items_view(labels@),
            ordered(JsonView::Array(v)),
            choices@.len() == i,
            choice_error(property@, kind, v, l, 0) == choice_error(property@, kind, v, l, i as int),
            forall|j: int|
                0 <= j < i ==> value_json((#[trigger] choices@[j]).value) == v[j]
                    && JsonView::Text(choices@[j].label@) == l[j],
        decreases values@.len() - i,
    {
        proof {
            assert(v[i as int] == values@[i as int]@);
            assert(l[i as int] == labels@[i as int]@);
            assert(JsonView::Array(v)->Array_0 == v);
            assert(ordered((JsonView::Array(v)->Array_0)[i as int]));
        }
        if !check_kind(kind, &values[i]) {
            return Err(field_fault(property, "' value does not match its type"));
        }
        let value = match InteractionValue::from_json(&values[i]) {
            Some(value) => value,
            None => {
                return Err(field_fault(property, "' enum values must be scalar"));
            },
        };
        let label = match &labels[i] {
            Json::Text(label) => {
                if text::is_blank(label.as_str()) {
                    return Err(field_fault(property, "' choice labels must be strings"));
                }
                label.clone()
            },
            _ => {
                return Err(field_fault(property, "' choice labels must be strings"));
            },
        };
        choices.push(DeclaredChoice { value, label });
        i = i + 1;
    }
    Ok(choices)
}

fn parse_choices(property: &str, members: &Vec<(String, Json)>, shape: &FieldShape) -> (r: Result<
    (Vec<DeclaredChoice>, Option<ChoiceSource>),
    PluginError,
>)
    requires
        ordered(JsonView::Object(members_view(members@))),
    ensures
        ({
            let m = members_view(members@);
            let error = choices_error(
                property@,
                m,
                shape.kind,
                shape.control,
                value_json(shape.default),
            );
            match r {
                Ok((choices, source)) => error is None && are_choices(choices@, m) && source
                    == source_named(m, shape.kind),
                Err(e) => error is Some && refuses(e, error->0),
            }
        }),
{
    let ghost m = members_view(members@);
    proof {
        lemma_member_ordered(m, "enum"@);
    }
    let values = match find_member(members, "enum") {
        None => None,
        Some(value) => match value.items() {
            Some(items) => Some(items),
            None => {
                return Err(field_fault(property, "' enum must be an array"));
            },
        },
    };
    let labels = match find_member(members, "x-stcli-choice-labels") {
        None => None,
        Some(value) => match value.items() {
            Some(items) => Some(items),
            None => {
                return Err(field_fault(property, "' choice labels must be an array"));
            },
        },
    };
    let source = match find_member(members, "x-stcli-choice-source") {
        Some(Json::Text(name)) => {
            if text::same(name.as_str(), "provider-profiles") && shape.kind == FieldKind::Text {
                Some(ChoiceSource::ProviderProfiles)
            } else {
                return Err(
                    field_fault_about(
                        property,
                        "' has unsupported choice source '",
                        name.as_str(),
                    ),
                );
            }
        },
        _ => None,
    };
    if shape.control != InteractionControl::Choice && (values.is_some() || labels.is_some()
        || source.is_some()) {
        return Err(field_fault(property, "' has choice metadata for a non-choice control"));
    }
    if values.is_some() && source.is_some() {
        return Err(field_fault(property, "' mixes static and dynamic choices"));
    }
    let choices = match (values, labels) {
        (Some(values), Some(labels)) => {
            if values.len() != labels.len() {
                return Err(
                    field_fault(property, "' requires matching enum values and choice labels"),
                );
            }
            match parse_listed(property, shape.kind, values, labels) {
                Ok(choices) => choices,
                Err(e) => {
                    return Err(e);
                },
            }
        },
        (None, None) => Vec::new(),
        _ => {
            return Err(field_fault(property, "' requires matching enum values and choice labels"));
        },
    };
    if shape.control == InteractionControl::Choice && choices.len() == 0 && source.is_none() {
        return Err(field_fault(property, "' choice has no source"));
    }
    if choices.len() > 0 {
        let mut i: usize = 0;
        let mut found = false;
        while i < choices.len()
            invariant
                i <= choices@.len(),
                found == exists|j: int|
                    0 <= j < i && equal_json(
                        value_json((#[trigger] choices@[j]).value),
                        value_json(shape.default),
                    ),
            decreases choices@.len() - i,
        {
            if choices[i].value.same(&shape.default) {
                found = true;
            }
            i = i + 1;
        }
        proof {
            let listed = as_items(member(m, "enum"@))->0;
            if found {
                let j = choose|j: int|
                    0 <= j < choices@.len() && equal_json(
                        value_json((#[trigger] choices@[j]).value),
                        value_json(shape.default),
                    );
                assert(equal_json(listed[j], value_json(shape.default)));
            } else {
                assert forall|j: int| 0 <= j < listed.len() implies !equal_json(
                    #[trigger] listed[j],
                    value_json(shape.default),
                ) by {
                    assert(value_json(choices@[j].value) == listed[j]);
                }
            }
        }
        if !found {
            return Err(field_fault(property, "' default is not a declared choice"));
        }
    }
    Ok((choices, source))
}

/// A message about a field of list items.
pub open spec fn list_message(name: Seq<char>, tail: Seq<char>) -> Seq<char> {
    "interaction list field '"@ + name + tail
}

fn list_fault(name: &str, tail: &str) -> (error: PluginError)
    ensures
        refuses(error, list_message(name@, tail@)),
{
    let mut message = "interaction list field '".to_owned();
    message.push_str(name);
    message.push_str(tail);
    invalid(message)
}

/// The type that a field of list items may have.
pub open spec fn list_kind_named(name: Seq<char>) -> Option<FieldKind> {
    if name == "boolean"@ {
        Some(FieldKind::Boolean)
    } else if name == "string"@ {
        Some(FieldKind::Text)
    } else {
        None
    }
}

/// The control that a field of list items may have.
pub open spec fn list_control_named(name: Seq<char>, kind: FieldKind) -> Option<
    InteractionControl,
> {
    if name == "boolean"@ && kind == FieldKind::Boolean {
        Some(InteractionControl::Boolean)
    } else if name == "text"@ && kind == FieldKind::Text {
        Some(InteractionControl::Text)
    } else if name == "multiline-text"@ && kind == FieldKind::Text {
        Some(InteractionControl::MultilineText)
    } else {
        None
    }
}

/// Why a field of list items is refused.
pub open spec fn list_field_error(
    properties: Seq<(Seq<char>, JsonView)>,
    name: Seq<char>,
) -> Option<Seq<char>> {
    let source = as_members(member(properties, name));
    let kind_name = field_text(source->0, "type"@);
    let kind = list_kind_named(kind_name->0);
    let control_name = field_text(source->0, "x-stcli-control"@);
    if source is None {
        Some(list_message(name, "' is missing"@))
    } else if kind_name is None {
        Some(required_message(name, "type"@))
    } else if kind is None {
        Some(
            "interaction list field '"@ + name + "' has unsupported type '"@ + kind_name->0 + "'"@,
        )
    } else if control_name is None {
        Some(required_message(name, "x-stcli-control"@))
    } else if list_control_named(control_name->0, kind->0) is None {
        Some(list_message(name, "' has incompatible control"@))
    } else if field_text(source->0, "title"@) is None {
        Some(required_message(name, "title"@))
    } else {
        None
    }
}

/// A declared field of list items says what its schema says.
pub open spec fn is_list_field(
    declared: DeclaredListField,
    properties: Seq<(Seq<char>, JsonView)>,
    name: Seq<char>,
) -> bool {
    let source = as_members(member(properties, name))->0;
    &&& declared.property@ == name
    &&& field_text(source, "title"@) == Some(declared.label@)
    &&& list_kind_named(field_text(source, "type"@)->0) == Some(declared.kind)
    &&& list_control_named(field_text(source, "x-stcli-control"@)->0, declared.kind) == Some(
        declared.control,
    )
}

fn parse_list_field(properties: &Vec<(String, Json)>, name: &str) -> (r: Result<
    DeclaredListField,
    PluginError,
>)
    ensures
        ({
            let p = members_view(properties@);
            match r {
                Ok(declared) => list_field_error(p, name@) is None && is_list_field(
                    declared,
                    p,
                    name@,
                ),
                Err(e) => list_field_error(p, name@) is Some && refuses(
                    e,
                    list_field_error(p, name@)->0,
                ),
            }
        }),
{
    let source = match find_member(properties, name) {
        Some(value) => match value.members() {
            Some(members) => members,
            None => {
                return Err(list_fault(name, "' is missing"));
            },
        },
        None => {
            return Err(list_fault(name, "' is missing"));
        },
    };
    let kind_name = match required_string(source, "type", name) {
        Ok(t) => t,
        Err(e) => {
            return Err(e);
        },
    };
    let kind = if text::same(kind_name.as_str(), "boolean") {
        FieldKind::Boolean
    } else if text::same(kind_name.as_str(), "string") {
        FieldKind::Text
    } else {
        let mut message = "interaction list field '".to_owned();
        message.push_str(name);
        message.push_str("' has unsupported type '");
        message.push_str(kind_name.as_str());
        message.push_str("'");
        return Err(invalid(message));
    };
    let control_name = match required_string(source, "x-stcli-control", name) {
        Ok(t) => t,
        Err(e) => {
            return Err(e);
        },
    };
    let control = if text::same(control_name.as_str(), "boolean") && kind == FieldKind::Boolean {
        InteractionControl::Boolean
    } else if text::same(control_name.as_str(), "text") && kind == FieldKind::Text {
        InteractionControl::Text
    } else if text::same(control_name.as_str(), "multiline-text") && kind == FieldKind::Text {
        InteractionControl::MultilineText
    } else {
        return Err(list_fault(name, "' has incompatible control"));
    };
    let label = match required_string(source, "title", name) {
        Ok(t) => t,
        Err(e) => {
            return Err(e);
        },
    };
    Ok(DeclaredListField { property: name.to_owned(), label: label.clone(), control, kind })
}

/// The names of the fields of list items: the required texts but the identity.
pub open spec fn list_field_names(required: Seq<JsonView>, item_id: Seq<char>) -> Seq<Seq<char>>
    decreases required.len(),
{
    if required.len() == 0 {
        Seq::empty()
    } else {
        let names = list_field_names(required.drop_last(), item_id);
        match required.last() {
            JsonView::Text(name) => if name == item_id {
                names
            } else {
                names.push(name)
            },
            _ => names,
        }
    }
}

/// Why the first of some fields of list items that is refused is.
pub open spec fn first_list_field_error(
    properties: Seq<(Seq<char>, JsonView)>,
    names: Seq<Seq<char>>,
) -> Option<Seq<char>>
    decreases names.len(),
{
    if names.len() == 0 {
        None
    } else if first_list_field_error(properties, names.drop_last()) is Some {
        first_list_field_error(properties, names.drop_last())
    } else {
        list_field_error(properties, names.last())
    }
}

/// The parts of an ordered list's schema: the names that are required of an
/// item and the schemas of its fields.
pub open spec fn list_parts(members: Seq<(Seq<char>, JsonView)>) -> (
    Seq<JsonView>,
    Seq<(Seq<char>, JsonView)>,
) {
    let items = as_members(member(members, "items"@))->0;
    (as_items(member(items, "required"@))->0, as_members(member(items, "properties"@))->0)
}

/// Why the items of an ordered list are refused.
pub open spec fn list_error(property: Seq<char>, members: Seq<(Seq<char>, JsonView)>) -> Option<
    Seq<char>,
> {
    let item_id = field_text(members, "x-stcli-item-id"@);
    let items = as_members(member(members, "items"@));
    let (required, properties) = list_parts(members);
    let id_field = as_members(member(properties, item_id->0));
    let names = list_field_names(required, item_id->0);
    if item_id is None {
        Some(required_message(property, "x-stcli-item-id"@))
    } else if items is None {
        Some(field_message(property, "' requires object items"@))
    } else if as_items(member(items->0, "required"@)) is None {
        Some(field_message(property, "' requires item fields"@))
    } else if as_members(member(items->0, "properties"@)) is None {
        Some(field_message(property, "' requires item properties"@))
    } else if !required.contains(JsonView::Text(item_id->0)) {
        Some(field_message(property, "' item id must be required"@))
    } else if id_field is None {
        Some(field_message(property, "' item id is missing"@))
    } else if as_text(member(id_field->0, "type"@)) != Some("string"@) {
        Some(field_message(property, "' item id must be a string"@))
    } else if first_list_field_error(properties, names) is Some {
        first_list_field_error(properties, names)
    } else if names.len() == 0 {
        Some(field_message(property, "' ordered list requires editable fields"@))
    } else {
        None
    }
}

/// A declared list says what its schema says.
pub open spec fn is_list(declared: DeclaredList, members: Seq<(Seq<char>, JsonView)>) -> bool {
    let (required, properties) = list_parts(members);
    let names = list_field_names(required, declared.item_id@);
    &&& field_text(members, "x-stcli-item-id"@) == Some(declared.item_id@)
    &&& declared.fields@.len() == names.len()
    &&& forall|i: int|
        0 <= i < names.len() ==> is_list_field(
            #[trigger] declared.fields@[i],
            properties,
            names[i],
        )
}

fn parse_list(property: &str, members: &Vec<(String, Json)>) -> (r: Result<
    DeclaredList,
    PluginError,
>)
    ensures
        ({
            let m = members_view(members@);
            match r {
                Ok(list) => list_error(property@, m) is None && is_list(list, m),
                Err(e) => list_error(property@, m) is Some && refuses(
                    e,
                    list_error(property@, m)->0,
                ),
            }
        }),
{
    let ghost m = members_view(members@);
    let item_id = match required_string(members, "x-stcli-item-id", property) {
        Ok(t) => t.clone(),
        Err(e) => {
            return Err(e);
        },
    };
    let items = match find_member(members, "items") {
        Some(value) => value.members(),
        None => None,
    };
    let items = match items {
        Some(items) => items,
        None => {
            return Err(field_fault(property, "' requires object items"));
        },
    };
    let required = match find_member(items, "required") {
        Some(value) => value.items(),
        None => None,
    };
    let required = match required {
        Some(required) => required,
        None => {
            return Err(field_fault(property, "' requires item fields"));
        },
    };
    let properties = match find_member(items, "properties") {
        Some(value) => value.members(),
        None => None,
    };
    let properties = match properties {
        Some(properties) => properties,
        None => {
            return Err(field_fault(property, "' requires item properties"));
        },
    };
    let ghost needed = items_view(required@);
    let ghost props = members_view(properties@);
    proof {
        assert(list_parts(m) == (needed, props));
    }
    let mut present = false;
    let mut k: usize = 0;
    while k < required.len()
        invariant
            k <= required@.len(),
            needed == items_view(required@),
            present == exists|j: int| 0 <= j < k && #[trigger] needed[j] == JsonView::Text(item_id@),
        decreases required@.len() - k,
    {
        proof {
            assert(needed[k as int] == required@[k as int]@);
        }
        match &required[k] {
            Json::Text(name) => if text::same(name.as_str(), item_id.as_str()) {
                present = true;
            },
            _ => {},
        }
        k = k + 1;
    }
    if !present {
        return Err(field_fault(property, "' item id must be required"));
    }
    let id_field = match find_member(properties, item_id.as_str()) {
        Some(value) => value.members(),
        None => None,
    };
    let id_field = match id_field {
        Some(id_field) => id_field,
        None => {
            return Err(field_fault(property, "' item id is missing"));
        },
    };
    let id_is_text = match find_member(id_field, "type") {
        Some(Json::Text(name)) => text::same(name.as_str(), "string"),
        _ => false,
    };
    if !id_is_text {
        return Err(field_fault(property, "' item id must be a string"));
    }
    let mut fields: Vec<DeclaredListField> = Vec::new();
    let ghost all = list_field_names(needed, item_id@);
    let mut i: usize = 0;
    proof {
        assert(needed.take(0) =~= Seq::empty());
    }
    while i < required.len()
        invariant
            i <= required@.len(),
            m == members_view(members@),
            needed == items_view(required@),
            props == members_view(properties@),
            fields@.len() == list_field_names(needed.take(i as int), item_id@).len(),
            first_list_field_error(
                props,
                list_field_names(needed.take(i as int), item_id@),
            ) is None,
            forall|j: int|
                0 <= j < fields@.len() ==> is_list_field(
                    #[trigger] fields@[j],
                    props,
                    list_field_names(needed.take(i as int), item_id@)[j],
                ),
            list_error(property@, m) == (if first_list_field_error(
                props,
                list_field_names(needed, item_id@),
            ) is Some {
                first_list_field_error(props, list_field_names(needed, item_id@))
            } else if list_field_names(needed, item_id@).len() == 0 {
                Some(field_message(property@, "' ordered list requires editable fields"@))
            } else {
                None
            }),
        decreases required@.len() - i,
    {
        let ghost before = list_field_names(needed.take(i as int), item_id@);
        let ghost after = list_field_names(needed.take(i + 1), item_id@);
        proof {
            assert(needed[i as int] == required@[i as int]@);
            assert(needed.take(i + 1).drop_last() =~= needed.take(i as int));
            assert(needed.take(i + 1).last() == needed[i as int]);
        }
        match &required[i] {
            Json::Text(name) => {
                if !text::same(name.as_str(), item_id.as_str()) {
                    proof {
                        assert(after == before.push(name@));
                        assert(after.drop_last() =~= before);
                    }
                    match parse_list_field(properties, name.as_str()) {
                        Ok(declared) => {
                            fields.push(declared);
                            proof {
                                assert forall|j: int| 0 <= j < fields@.len() implies is_list_field(
                                    #[trigger] fields@[j],
                                    props,
                                    after[j],
                                ) by {
                                    if j < before.len() {
                                        assert(after[j] == before[j]);
                                    }
                                }
                            }
                        },
                        Err(e) => {
                            proof {
                                lemma_list_error_prefix(props, needed, item_id@, i + 1);
                            }
                            return Err(e);
                        },
                    }
                }
            },
            _ => {},
        }
        i = i + 1;
    }
    proof {
        assert(needed.take(needed.len() as int) =~= needed);
    }
    if fields.len() == 0 {
        return Err(field_fault(property, "' ordered list requires editable fields"));
    }
    Ok(DeclaredList { item_id, fields })
}

proof fn lemma_list_error_prefix(
    properties: Seq<(Seq<char>, JsonView)>,
    required: Seq<JsonView>,
    item_id: Seq<char>,
    k: int,
)
    requires
        0 <= k <= required.len(),
        first_list_field_error(properties, list_field_names(required.take(k), item_id)) is Some,
    ensures
        first_list_field_error(properties, list_field_names(required, item_id))
            == first_list_field_error(properties, list_field_names(required.take(k), item_id)),
    decreases required.len() - k,
{
    if k == required.len() {
        assert(required.take(k) =~= required);
    } else {
        let before = list_field_names(required.take(k), item_id);
        let after = list_field_names(required.take(k + 1), item_id);
        assert(required.take(k + 1).drop_last() =~= required.take(k));
        if after != before {
            assert(after.drop_last() =~= before);
        }
        lemma_list_error_prefix(properties, required, item_id, k + 1);
    }
}

/// The resource that the members of a setting's schema name for a control.
pub open spec fn resource_named(
    members: Seq<(Seq<char>, JsonView)>,
    control: InteractionControl,
) -> Option<ResourceKind> {
    let name = as_text(member(members, "x-stcli-resource"@));
    if control != InteractionControl::ResourceSelector {
        None
    } else if name == Some("characters"@) {
        Some(ResourceKind::Characters)
    } else if name == Some("provider-profiles"@) {
        Some(ResourceKind::ProviderProfiles)
    } else {
        None
    }
}

/// Why the list, the resource or the texts of a setting are refused.
pub open spec fn details_error(
    property: Seq<char>,
    members: Seq<(Seq<char>, JsonView)>,
    control: InteractionControl,
) -> Option<Seq<char>> {
    let resource = as_text(member(members, "x-stcli-resource"@));
    if control == InteractionControl::OrderedList && list_error(property, members) is Some {
        list_error(property, members)
    } else if resource is Some && resource_named(members, control) is None {
        Some(field_message_about(property, "' has unsupported resource source '"@, resource->0))
    } else if resource is None && control == InteractionControl::ResourceSelector {
        Some(field_message(property, "' resource selector requires a source"@))
    } else if control != InteractionControl::OrderedList && (member(members, "items"@) is Some
        || member(members, "x-stcli-item-id"@) is Some) {
        Some(field_message(property, "' has list metadata for a non-list control"@))
    } else if field_text(members, "title"@) is None {
        Some(required_message(property, "title"@))
    } else if field_text(members, "description"@) is None {
        Some(required_message(property, "description"@))
    } else {
        None
    }
}

/// Why the schema of a setting is refused.
pub open spec fn field_error(property: Seq<char>, source: JsonView) -> Option<Seq<char>> {
    match source {
        JsonView::Object(members) => {
            let kind = kind_named(field_text(members, "type"@)->0)->0;
            let control = control_named(field_text(members, "x-stcli-control"@)->0)->0;
            let default = member(members, "default"@)->0;
            if shape_error(property, members) is Some {
                shape_error(property, members)
            } else if choices_error(property, members, kind, control, default) is Some {
                choices_error(property, members, kind, control, default)
            } else {
                details_error(property, members, control)
            }
        },
        _ => Some(field_message(property, "' must be an object"@)),
    }
}

/// A declared setting says what its schema says.
pub open spec fn is_field(declared: DeclaredField, property: Seq<char>, source: JsonView) -> bool {
    let members = source->Object_0;
    &&& source is Object
    &&& declared.property@ == property
    &&& field_text(members, "title"@) == Some(declared.label@)
    &&& field_text(members, "description"@) == Some(declared.help@)
    &&& kind_named(field_text(members, "type"@)->0) == Some(declared.kind)
    &&& control_named(field_text(members, "x-stcli-control"@)->0) == Some(declared.control)
    &&& member(members, "default"@) == Some(value_json(declared.default))
    &&& number_member(members, "minimum"@) == number_view(declared.minimum)
    &&& number_member(members, "maximum"@) == number_view(declared.maximum)
    &&& are_choices(declared.choices@, members)
    &&& declared.choice_source == source_named(members, declared.kind)
    &&& declared.list is Some <==> declared.control == InteractionControl::OrderedList
    &&& declared.list is Some ==> is_list(declared.list->0, members)
    &&& declared.resource == resource_named(members, declared.control)
}

/// Reads a setting from its schema.
pub fn parse_field(property: &str, source: &Json) -> (r: Result<DeclaredField, PluginError>)
    requires
        ordered(source@),
    ensures
        match r {
            Ok(declared) => field_error(property@, source@) is None && is_field(
                declared,
                property@,
                source@,
            ),
            Err(e) => field_error(property@, source@) is Some && refuses(
                e,
                field_error(property@, source@)->0,
            ),
        },
{
    let members = match source.members() {
        Some(members) => members,
        None => {
            return Err(field_fault(property, "' must be an object"));
        },
    };
    proof {
        assert(source@ == JsonView::Object(members_view(members@)));
    }
    let shape = match parse_shape(property, members) {
        Ok(shape) => shape,
        Err(e) => {
            return Err(e);
        },
    };
    let (choices, choice_source) = match parse_choices(property, members, &shape) {
        Ok(found) => found,
        Err(e) => {
            return Err(e);
        },
    };
    let list = if shape.control == InteractionControl::OrderedList {
        match parse_list(property, members) {
            Ok(list) => Some(list),
            Err(e) => {
                return Err(e);
            },
        }
    } else {
        None
    };
    let resource = match find_member(members, "x-stcli-resource") {
        Some(Json::Text(name)) => {
            if shape.control == InteractionControl::ResourceSelector && text::same(
                name.as_str(),
                "characters",
            ) {
                Some(ResourceKind::Characters)
            } else if shape.control == InteractionControl::ResourceSelector && text::same(
                name.as_str(),
                "provider-profiles",
            ) {
                Some(ResourceKind::ProviderProfiles)
            } else {
                return Err(
                    field_fault_about(
                        property,
                        "' has unsupported resource source '",
                        name.as_str(),
                    ),
                );
            }
        },
        _ => {
            if shape.control == InteractionControl::ResourceSelector {
                return Err(field_fault(property, "' resource selector requires a source"));
            }
            None
        },
    };
    if shape.control != InteractionControl::OrderedList && (find_member(members, "items").is_some()
        || find_member(members, "x-stcli-item-id").is_some()) {
        return Err(field_fault(property, "' has list metadata for a non-list control"));
    }
    let label = match required_string(members, "title", property) {
        Ok(t) => t.clone(),
        Err(e) => {
            return Err(e);
        },
    };
    let help = match required_string(members, "description", property) {
        Ok(t) => t.clone(),
        Err(e) => {
            return Err(e);
        },
    };
    Ok(
        DeclaredField {
            property: property.to_owned(),
            label,
            help,
            control: shape.control,
            kind: shape.kind,
            default: shape.default,
            minimum: shape.minimum,
            maximum: shape.maximum,
            choices,
            choice_source,
            list,
            resource,
        },
    )
}

impl InteractionControl {
    /// The written name.
    pub open spec fn name(self) -> Seq<char> {
        match self {
            InteractionControl::Boolean => "boolean"@,
            InteractionControl::Number => "number"@,
            InteractionControl::Text => "text"@,
            InteractionControl::MultilineText => "multiline-text"@,
            InteractionControl::Choice => "choice"@,
            InteractionControl::OrderedList => "ordered-list"@,
            InteractionControl::ResourceSelector => "resource-selector"@,
        }
    }

    /// The written name.
    pub fn as_str(self) -> (r: &'static str)
        ensures
            r@ == self.name(),
    {
        match self {
            InteractionControl::Boolean => "boolean",
            InteractionControl::Number => "number",
            InteractionControl::Text => "text",
            InteractionControl::MultilineText => "multiline-text",
            InteractionControl::Choice => "choice",
            InteractionControl::OrderedList => "ordered-list",
            InteractionControl::ResourceSelector => "resource-selector",
        }
    }
}

impl FieldKind {
    /// The name by which a declaration records the type.
    pub open spec fn name(self) -> Seq<char> {
        match self {
            FieldKind::Boolean => "Boolean"@,
            FieldKind::Integer => "Integer"@,
            FieldKind::Number => "Number"@,
            FieldKind::Text => "String"@,
            FieldKind::Array => "Array"@,
        }
    }

    /// The name by which a declaration records the type.
    pub fn as_str(self) -> (r: &'static str)
        ensures
            r@ == self.name(),
    {
        match self {
            FieldKind::Boolean => "Boolean",
            FieldKind::Integer => "Integer",
            FieldKind::Number => "Number",
            FieldKind::Text => "String",
            FieldKind::Array => "Array",
        }
    }
}

} // verus!

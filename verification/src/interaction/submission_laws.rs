//! What comes of what users submit, and which settings are in force.
use vstd::prelude::*;

use crate::assoc;
use crate::interaction::declaration::InteractionDeclaration;
use crate::interaction::schema::{DeclaredField, FieldKind, InteractionControl};
use crate::interaction::settings::setting_in_force;
use crate::interaction::submission::{
    action_index, changes, choices_for, decides, Decision, edit_fault, edit_targets, edited,
    edited_property, faulty_edit, field_index, InteractionEdit, InteractionSubmission,
    pinned_members,
};
use crate::interaction::surface::{
    InteractionIdentity, InteractionSurface, is_target, value_error,
};
use crate::interaction::value::value_json;
use crate::identity::ContentHash;
use crate::json::{equal_json, JsonView, lemma_with_member_found, member};

verus! {

/// A value is of the type that a setting is declared with, and within its bounds.
pub open spec fn suits(declared: DeclaredField, value: JsonView) -> bool {
    &&& declared.kind == FieldKind::Boolean ==> value is Bool
    &&& declared.kind == FieldKind::Text ==> value is Text
    &&& declared.kind == FieldKind::Array ==> value is Array
    &&& declared.kind == FieldKind::Number ==> value is Number
    &&& declared.kind == FieldKind::Integer ==> value is Number && !(
    (value->Number_0).form is Real)
    &&& declared.kind == FieldKind::Integer || declared.kind == FieldKind::Number ==> {
        &&& declared.minimum matches Some(least) ==> least@.order <= (value->Number_0).order
        &&& declared.maximum matches Some(most) ==> (value->Number_0).order <= most@.order
    }
}

/// A value that is accepted for a setting is of its type and within its bounds, and one
/// that is chosen is equal to a choice that can be had.
pub proof fn law_accepted_values_suit(
    declared: DeclaredField,
    value: JsonView,
    choices: Seq<(JsonView, Seq<char>, bool)>,
)
    requires
        value_error(declared, value, choices) is None,
    ensures
        suits(declared, value),
        declared.control == InteractionControl::Choice || declared.control
            == InteractionControl::ResourceSelector ==> exists|i: int|
            0 <= i < choices.len() && equal_json((#[trigger] choices[i]).0, value)
                && choices[i].2,
{
}

proof fn lemma_sound_edits(
    declaration: InteractionDeclaration,
    surface: InteractionSurface,
    edits: Seq<InteractionEdit>,
    from: int,
    i: int,
)
    requires
        0 <= from <= i < edits.len(),
        faulty_edit(declaration, surface, edits, from) >= edits.len(),
    ensures
        edit_fault(declaration, surface, edits[i], edit_targets(edits, i)) is None,
    decreases edits.len() - from,
{
    if from < i {
        lemma_sound_edits(declaration, surface, edits, from + 1, i);
    }
}

proof fn lemma_field_is_target(
    fields: Seq<(String, DeclaredField)>,
    surface: ContentHash,
    target: ContentHash,
    from: int,
)
    requires
        0 <= from <= fields.len(),
    ensures
        from <= field_index(fields, surface, target, from) <= fields.len(),
        field_index(fields, surface, target, from) < fields.len() ==> is_target(
            target,
            surface,
            "field"@,
            fields[field_index(fields, surface, target, from)].0@,
        ),
    decreases fields.len() - from,
{
    if from < fields.len() && !is_target(target, surface, "field"@, fields[from].0@) {
        lemma_field_is_target(fields, surface, target, from + 1);
    }
}

/// An edit sets a declared setting to a value that suits it.
pub open spec fn is_sound_edit(
    declaration: InteractionDeclaration,
    surface: InteractionSurface,
    edit: InteractionEdit,
) -> bool {
    exists|f: int|
        {
            &&& 0 <= f < declaration.fields@.len()
            &&& is_target(
                edit.target,
                surface.identity.surface_id,
                "field"@,
                (#[trigger] declaration.fields@[f]).0@,
            )
            &&& suits(declaration.fields@[f].1, value_json(edit.value))
        }
}

/// Settings are saved only for the session, branch, extension, package and revision
/// that were shown, where saving is enabled, no setting is edited twice, and every edit
/// sets a declared setting to a value that suits it.
pub proof fn law_only_sound_edits_are_saved(
    decision: Decision,
    surface: InteractionSurface,
    declaration: InteractionDeclaration,
    pinned: JsonView,
    identity: InteractionIdentity,
    revision: ContentHash,
    submission: InteractionSubmission,
    i: int,
    j: int,
)
    requires
        decides(decision, surface, declaration, pinned, identity, revision, submission),
        decision is Save || decision is Keep,
    ensures
        surface.identity.session_id == identity.session_id,
        surface.identity.branch_id == identity.branch_id,
        surface.identity.extension_id@ == identity.extension_id@,
        surface.identity.package_version@ == identity.package_version@,
        surface.identity.component_sha256@ == identity.component_sha256@,
        surface.identity.declaration_hash@ == identity.declaration_hash@,
        surface.identity.surface_id@ == identity.surface_id@,
        surface.revision@ == revision@,
        surface.save.enabled,
        submission matches InteractionSubmission::Save { target, edits } && {
            &&& is_target(target, surface.identity.surface_id, "save"@, declaration.id@)
            &&& 0 <= i < edits@.len() ==> is_sound_edit(declaration, surface, edits@[i])
            &&& 0 <= i < j < edits@.len() ==> edits@[i].target@ != edits@[j].target@
        },
{
    match submission {
        InteractionSubmission::Save { target, edits } => {
            if 0 <= i < edits@.len() {
                lemma_sound_edits(declaration, surface, edits@, 0, i);
                lemma_field_is_target(
                    declaration.fields@,
                    surface.identity.surface_id,
                    edits@[i].target,
                    0,
                );
                let f = field_index(
                    declaration.fields@,
                    surface.identity.surface_id,
                    edits@[i].target,
                    0,
                );
                law_accepted_values_suit(
                    declaration.fields@[f].1,
                    value_json(edits@[i].value),
                    choices_for(surface.groups@, edits@[i].target@, 0)->0,
                );
                assert(is_target(
                    edits@[i].target,
                    surface.identity.surface_id,
                    "field"@,
                    declaration.fields@[f].0@,
                ));
            }
            if 0 <= i < j < edits@.len() {
                lemma_sound_edits(declaration, surface, edits@, 0, j);
                let seen = edit_targets(edits@, j);
                assert(seen[i] == edits@[i].target@);
                if edits@[i].target@ == edits@[j].target@ {
                    assert(seen.contains(edits@[j].target@));
                }
            }
        },
        _ => {},
    }
}

proof fn lemma_edited(
    declaration: InteractionDeclaration,
    surface: InteractionSurface,
    settings: Seq<(Seq<char>, JsonView)>,
    edits: Seq<InteractionEdit>,
    count: int,
    name: Seq<char>,
)
    requires
        0 <= count <= edits.len(),
    ensures
        (forall|i: int|
            0 <= i < count ==> edited_property(declaration, surface, #[trigger] edits[i]) != name)
            ==> member(edited(declaration, surface, settings, edits, count), name) == member(
            settings,
            name,
        ),
        forall|i: int|
            0 <= i < count && edited_property(declaration, surface, #[trigger] edits[i]) == name
                && (forall|j: int|
                i < j < count ==> edited_property(declaration, surface, #[trigger] edits[j])
                    != name) ==> member(
                edited(declaration, surface, settings, edits, count),
                name,
            ) == Some(value_json(edits[i].value)),
    decreases count,
{
    if count > 0 {
        lemma_edited(declaration, surface, settings, edits, count - 1, name);
        let before = edited(declaration, surface, settings, edits, count - 1);
        let last = edits[count - 1];
        lemma_with_member_found(
            before,
            edited_property(declaration, surface, last),
            value_json(last.value),
            name,
        );
        assert forall|i: int|
            0 <= i < count && edited_property(declaration, surface, #[trigger] edits[i]) == name
                && (forall|j: int|
                i < j < count ==> edited_property(declaration, surface, #[trigger] edits[j])
                    != name) implies member(
            edited(declaration, surface, settings, edits, count),
            name,
        ) == Some(value_json(edits[i].value)) by {
            if i < count - 1 {
                assert(edited_property(declaration, surface, edits[count - 1]) != name);
            }
        }
    }
}

/// The settings that are saved are those that were pinned, with each edited one at the
/// value of the last edit of it, and no others changed.
pub proof fn law_saved_settings_are_the_edited_ones(
    decision: Decision,
    surface: InteractionSurface,
    declaration: InteractionDeclaration,
    pinned: JsonView,
    identity: InteractionIdentity,
    revision: ContentHash,
    target: ContentHash,
    edits: Vec<InteractionEdit>,
    name: Seq<char>,
)
    requires
        decides(
            decision,
            surface,
            declaration,
            pinned,
            identity,
            revision,
            InteractionSubmission::Save { target, edits },
        ),
        decision is Save,
    ensures
        decision->Save_settings@ matches JsonView::Object(after) && {
            &&& (forall|i: int|
                0 <= i < edits@.len() ==> edited_property(
                    declaration,
                    surface,
                    #[trigger] edits@[i],
                ) != name) ==> member(after, name) == member(
                match pinned {
                    JsonView::Object(before) => before,
                    _ => Seq::empty(),
                },
                name,
            )
            &&& forall|i: int|
                0 <= i < edits@.len() && edited_property(
                    declaration,
                    surface,
                    #[trigger] edits@[i],
                ) == name && (forall|j: int|
                    i < j < edits@.len() ==> edited_property(
                        declaration,
                        surface,
                        #[trigger] edits@[j],
                    ) != name) ==> member(after, name) == Some(value_json(edits@[i].value))
        },
{
    lemma_edited(
        declaration,
        surface,
        pinned_members(pinned),
        edits@,
        edits@.len() as int,
        name,
    );
}

proof fn lemma_changes(
    declaration: InteractionDeclaration,
    surface: InteractionSurface,
    settings: Seq<(Seq<char>, JsonView)>,
    edits: Seq<InteractionEdit>,
    count: int,
)
    requires
        0 <= count <= edits.len(),
        !changes(declaration, surface, settings, edits, count),
    ensures
        forall|i: int|
            0 <= i < count ==> holds_value(
                edited(declaration, surface, settings, edits, i),
                edited_property(declaration, surface, #[trigger] edits[i]),
                value_json(edits[i].value),
            ),
    decreases count,
{
    if count > 0 {
        lemma_changes(declaration, surface, settings, edits, count - 1);
    }
}

/// A setting has a value already.
pub open spec fn holds_value(
    settings: Seq<(Seq<char>, JsonView)>,
    name: Seq<char>,
    value: JsonView,
) -> bool {
    member(settings, name) matches Some(current) && equal_json(current, value)
}

/// Nothing is saved where every edit says what is so already.
pub proof fn law_nothing_is_saved_without_a_change(
    surface: InteractionSurface,
    declaration: InteractionDeclaration,
    pinned: JsonView,
    identity: InteractionIdentity,
    revision: ContentHash,
    target: ContentHash,
    edits: Vec<InteractionEdit>,
)
    requires
        decides(
            Decision::Keep,
            surface,
            declaration,
            pinned,
            identity,
            revision,
            InteractionSubmission::Save { target, edits },
        ),
    ensures
        edits@.len() > 0 ==> holds_value(
            pinned_members(pinned),
            edited_property(declaration, surface, edits@[0]),
            value_json(edits@[0].value),
        ),
{
    lemma_changes(
        declaration,
        surface,
        pinned_members(pinned),
        edits@,
        edits@.len() as int,
    );
}

proof fn lemma_action_is_target(
    actions: Seq<crate::interaction::declaration::DeclaredAction>,
    surface: ContentHash,
    target: ContentHash,
    from: int,
)
    requires
        0 <= from <= actions.len(),
    ensures
        from <= action_index(actions, surface, target, from) <= actions.len(),
        action_index(actions, surface, target, from) < actions.len() ==> is_target(
            target,
            surface,
            "action"@,
            actions[action_index(actions, surface, target, from)].id@,
        ),
    decreases actions.len() - from,
{
    if from < actions.len() && !is_target(target, surface, "action"@, actions[from].id@) {
        lemma_action_is_target(actions, surface, target, from + 1);
    }
}

/// A command is only run for a declared action that was submitted and is enabled, and
/// it is the command of that action.
pub proof fn law_only_enabled_actions_run(
    decision: Decision,
    surface: InteractionSurface,
    declaration: InteractionDeclaration,
    pinned: JsonView,
    identity: InteractionIdentity,
    revision: ContentHash,
    submission: InteractionSubmission,
)
    requires
        decides(decision, surface, declaration, pinned, identity, revision, submission),
        decision is Invoke,
    ensures
        surface.revision@ == revision@,
        submission matches InteractionSubmission::Invoke { target } && exists|a: int|
            {
                &&& 0 <= a < declaration.actions@.len()
                &&& is_target(
                    target,
                    surface.identity.surface_id,
                    "action"@,
                    (#[trigger] declaration.actions@[a]).id@,
                )
                &&& surface.actions@[a].enabled
                &&& decision->Invoke_command@ == (declaration.actions@[a].command->0)@
            },
{
    match submission {
        InteractionSubmission::Invoke { target } => {
            lemma_action_is_target(
                declaration.actions@,
                surface.identity.surface_id,
                target,
                0,
            );
            let a = action_index(
                declaration.actions@,
                surface.identity.surface_id,
                target,
                0,
            );
            assert(is_target(
                target,
                surface.identity.surface_id,
                "action"@,
                declaration.actions@[a].id@,
            ));
        },
        _ => {},
    }
}

/// The value in force of a declared setting is the pinned one where there is one, else
/// the one that was kept, else the declared default.
pub proof fn law_pinned_settings_win(
    fields: Seq<(String, DeclaredField)>,
    kept: Seq<(Seq<char>, JsonView)>,
    pins: Seq<(Seq<char>, JsonView)>,
    name: Seq<char>,
)
    requires
        assoc::lookup(fields, name) is Some,
    ensures
        ({
            let in_force = setting_in_force(
                fields,
                JsonView::Object(kept),
                JsonView::Object(pins),
                name,
            );
            match (member(pins, name), member(kept, name)) {
                (Some(value), _) => in_force == Some(value),
                (None, Some(value)) => in_force == Some(value),
                (None, None) => in_force == Some(
                    value_json((assoc::lookup(fields, name)->0).default),
                ),
            }
        }),
{
}

/// A setting that is not declared is in force only as it was kept.
pub proof fn law_undeclared_settings_are_as_kept(
    fields: Seq<(String, DeclaredField)>,
    kept: Seq<(Seq<char>, JsonView)>,
    pinned: JsonView,
    name: Seq<char>,
)
    requires
        assoc::lookup(fields, name) is None,
    ensures
        setting_in_force(fields, JsonView::Object(kept), pinned, name) == member(kept, name),
{
}

} // verus!

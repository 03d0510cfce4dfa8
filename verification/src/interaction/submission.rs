//! Submissions to a surface: edits to save, or an action to run.
use vstd::prelude::*;

use crate::identity::ContentHash;
use crate::interaction::declaration::{DeclaredAction, given, InteractionDeclaration};
use crate::interaction::schema::{bounded, DeclaredField};
use crate::interaction::surface::{
    choices_view, InteractionField, InteractionGroup, InteractionIdentity, InteractionSurface,
    is_grouped, is_target, shows, shows_action, shows_group, SurfaceBuild, target_id,
    validate_edit, value_error, well_formed,
};
use crate::interaction::value::{InteractionValue, value_json};
use crate::json::{
    copy_members, equal_json, find_member, Json, JsonView, lemma_object_view, member, members_view,
    no_pairs, set_member, with_member,
};
use crate::text::{self, at_most};
use crate::turn::PluginCommandResult;

verus! {

/// A new value for a setting of a surface.
#[derive(Debug, Eq, PartialEq)]
pub struct InteractionEdit {
    pub target: ContentHash,
    pub value: InteractionValue,
}

/// What a user submits to a surface.
#[derive(Debug, Eq, PartialEq)]
pub enum InteractionSubmission {
    Save { target: ContentHash, edits: Vec<InteractionEdit> },
    Invoke { target: ContentHash },
}

/// What came of a submission.
#[derive(Debug, Eq, PartialEq)]
pub enum InteractionOutcome {
    Saved { configuration_revision: ContentHash },
    Invoked { result: Box<PluginCommandResult> },
    Rejected { reason: String },
}

/// What came of a submission, with the surface as it is afterwards.
#[derive(Debug, Eq, PartialEq)]
pub struct InteractionResult {
    pub surface: InteractionSurface,
    pub outcome: InteractionOutcome,
}

/// What is to be done about a submission: reject it, and maybe mark the setting
/// at fault; leave the settings as they are; pin new settings; or run a
/// command.
#[derive(Debug, Eq, PartialEq)]
pub enum Decision {
    Reject { reason: String },
    RejectEdit { target: ContentHash, reason: String },
    Keep,
    Save { settings: Json },
    Invoke { command: String },
}

/// The surface has a setting for each declared one and an action for each
/// declared one, in the same places, and only actions that have a command are
/// enabled.
pub open spec fn aligned(
    surface: InteractionSurface,
    declaration: InteractionDeclaration,
) -> bool {
    let id = surface.identity.surface_id;
    &&& surface.groups@.len() == declaration.groups@.len()
    &&& forall|g: int|
        #![trigger surface.groups@[g]]
        0 <= g < surface.groups@.len() ==> surface.groups@[g].fields@.len()
            == declaration.groups@[g].fields@.len()
    &&& forall|g: int, k: int|
        0 <= g < surface.groups@.len() && 0 <= k < surface.groups@[g].fields@.len() ==> is_target(
            (#[trigger] surface.groups@[g].fields@[k]).target,
            id,
            "field"@,
            declaration.groups@[g].fields@[k]@,
        )
    &&& surface.actions@.len() == declaration.actions@.len()
    &&& forall|a: int|
        0 <= a < surface.actions@.len() ==> is_target(
            (#[trigger] surface.actions@[a]).target,
            id,
            "action"@,
            declaration.actions@[a].id@,
        ) && (surface.actions@[a].enabled ==> declaration.actions@[a].command is Some)
}

/// A surface that shows a declaration is aligned with it.
pub proof fn law_surfaces_are_aligned(surface: InteractionSurface, input: SurfaceBuild)
    requires
        well_formed(*input.declaration),
        shows(surface, input),
    ensures
        aligned(surface, *input.declaration),
{
    let declaration = *input.declaration;
    let id = surface.identity.surface_id;
    assert forall|g: int|
        #![trigger surface.groups@[g]]
        0 <= g < surface.groups@.len() implies surface.groups@[g].fields@.len()
        == declaration.groups@[g].fields@.len() by {
        assert(shows_group(surface.groups@[g], id, declaration, declaration.groups@[g], input));
    }
    assert forall|g: int, k: int|
        0 <= g < surface.groups@.len() && 0 <= k < surface.groups@[g].fields@.len() implies
        is_target(
        (#[trigger] surface.groups@[g].fields@[k]).target,
        id,
        "field"@,
        declaration.groups@[g].fields@[k]@,
    ) by {
        assert(shows_group(surface.groups@[g], id, declaration, declaration.groups@[g], input));
    }
    assert forall|a: int| 0 <= a < surface.actions@.len() implies is_target(
        (#[trigger] surface.actions@[a]).target,
        id,
        "action"@,
        declaration.actions@[a].id@,
    ) && (surface.actions@[a].enabled ==> declaration.actions@[a].command is Some) by {
        assert(shows_action(
            surface.actions@[a],
            id,
            declaration,
            declaration.actions@[a],
            input,
        ));
        let action = declaration.actions@[a];
        if surface.actions@[a].enabled && !action.support.executable() {
            assert(given(action.support_reason));
        }
    }
}

/// The first declared setting, from the one at `from` on, that a target
/// identifies, or the number of settings when there is none.
pub open spec fn field_index(
    fields: Seq<(String, DeclaredField)>,
    surface: ContentHash,
    target: ContentHash,
    from: int,
) -> int
    decreases fields.len() - from,
{
    if from < 0 || from >= fields.len() {
        fields.len() as int
    } else if is_target(target, surface, "field"@, fields[from].0@) {
        from
    } else {
        field_index(fields, surface, target, from + 1)
    }
}

/// Finds the declared setting that a target identifies.
pub fn find_field<'a>(
    declaration: &'a InteractionDeclaration,
    surface: &ContentHash,
    target: &ContentHash,
) -> (r: Option<&'a (String, DeclaredField)>)
    ensures
        ({
            let at = field_index(declaration.fields@, *surface, *target, 0);
            match r {
                Some(found) => 0 <= at < declaration.fields@.len() && *found
                    == declaration.fields@[at],
                None => at == declaration.fields@.len(),
            }
        }),
{
    let mut i: usize = 0;
    while i < declaration.fields.len()
        invariant
            i <= declaration.fields@.len(),
            field_index(declaration.fields@, *surface, *target, 0) == field_index(
                declaration.fields@,
                *surface,
                *target,
                i as int,
            ),
        decreases declaration.fields@.len() - i,
    {
        let hash = target_id(surface, "field", declaration.fields[i].0.as_str());
        if hash.same(target) {
            return Some(&declaration.fields[i]);
        }
        i = i + 1;
    }
    None
}

/// The first declared action, from the one at `from` on, that a target
/// identifies, or the number of actions when there is none.
pub open spec fn action_index(
    actions: Seq<DeclaredAction>,
    surface: ContentHash,
    target: ContentHash,
    from: int,
) -> int
    decreases actions.len() - from,
{
    if from < 0 || from >= actions.len() {
        actions.len() as int
    } else if is_target(target, surface, "action"@, actions[from].id@) {
        from
    } else {
        action_index(actions, surface, target, from + 1)
    }
}

/// Finds the declared action that a target identifies.
pub fn find_action(
    declaration: &InteractionDeclaration,
    surface: &ContentHash,
    target: &ContentHash,
) -> (r: Option<usize>)
    ensures
        ({
            let at = action_index(declaration.actions@, *surface, *target, 0);
            match r {
                Some(found) => found == at && at < declaration.actions@.len(),
                None => at == declaration.actions@.len(),
            }
        }),
{
    let mut i: usize = 0;
    while i < declaration.actions.len()
        invariant
            i <= declaration.actions@.len(),
            action_index(declaration.actions@, *surface, *target, 0) == action_index(
                declaration.actions@,
                *surface,
                *target,
                i as int,
            ),
        decreases declaration.actions@.len() - i,
    {
        let hash = target_id(surface, "action", declaration.actions[i].id.as_str());
        if hash.same(target) {
            return Some(i);
        }
        i = i + 1;
    }
    None
}

/// Whether a target identifies the saving of a declaration's settings.
pub fn is_save_target(
    declaration: &InteractionDeclaration,
    surface: &ContentHash,
    target: &ContentHash,
) -> (r: bool)
    ensures
        r == is_target(*target, *surface, "save"@, declaration.id@),
{
    target_id(surface, "save", declaration.id.as_str()).same(target)
}

/// The first setting of a group, from the one at `from` on, with a target, or
/// the number of settings when there is none.
pub open spec fn shown_index(fields: Seq<InteractionField>, target: Seq<u8>, from: int) -> int
    decreases fields.len() - from,
{
    if from < 0 || from >= fields.len() {
        fields.len() as int
    } else if fields[from].target@ == target {
        from
    } else {
        shown_index(fields, target, from + 1)
    }
}

/// The choices of the first setting on a surface, from the group at `from` on,
/// with a target.
pub open spec fn choices_for(groups: Seq<InteractionGroup>, target: Seq<u8>, from: int) -> Option<
    Seq<(JsonView, Seq<char>, bool)>,
>
    decreases groups.len() - from,
{
    if from < 0 || from >= groups.len() {
        None
    } else {
        let at = shown_index(groups[from].fields@, target, 0);
        if 0 <= at < groups[from].fields@.len() {
            Some(choices_view(groups[from].fields@[at].choices@))
        } else {
            choices_for(groups, target, from + 1)
        }
    }
}

fn find_shown<'a>(groups: &'a Vec<InteractionGroup>, target: &ContentHash) -> (r: Option<
    &'a InteractionField,
>)
    ensures
        match r {
            Some(shown) => choices_for(groups@, target@, 0) == Some(choices_view(shown.choices@)),
            None => choices_for(groups@, target@, 0) is None,
        },
        r is None ==> forall|g: int, k: int|
            0 <= g < groups@.len() && 0 <= k < groups@[g].fields@.len() ==> (
            #[trigger] groups@[g].fields@[k]).target@ != target@,
{
    let mut g: usize = 0;
    while g < groups.len()
        invariant
            g <= groups@.len(),
            choices_for(groups@, target@, 0) == choices_for(groups@, target@, g as int),
            forall|h: int, k: int|
                0 <= h < g && 0 <= k < groups@[h].fields@.len() ==> (
                #[trigger] groups@[h].fields@[k]).target@ != target@,
        decreases groups@.len() - g,
    {
        let fields = &groups[g].fields;
        let mut k: usize = 0;
        while k < fields.len()
            invariant
                g < groups@.len(),
                *fields == groups@[g as int].fields,
                k <= fields@.len(),
                choices_for(groups@, target@, 0) == choices_for(groups@, target@, g as int),
                shown_index(fields@, target@, 0) == shown_index(fields@, target@, k as int),
                forall|j: int| 0 <= j < k ==> (#[trigger] fields@[j]).target@ != target@,
            decreases fields@.len() - k,
        {
            if fields[k].target.same(target) {
                return Some(&fields[k]);
            }
            k = k + 1;
        }
        g = g + 1;
    }
    None
}

/// What is wrong with an edit.
pub enum EditFault {
    Submission(Seq<char>),
    Value(Seq<char>),
}

/// What is wrong with one edit, where `seen` are the targets of earlier ones.
pub open spec fn edit_fault(
    declaration: InteractionDeclaration,
    surface: InteractionSurface,
    edit: InteractionEdit,
    seen: Seq<Seq<u8>>,
) -> Option<EditFault> {
    let at = field_index(declaration.fields@, surface.identity.surface_id, edit.target, 0);
    let declared = declaration.fields@[at].1;
    let choices = choices_for(surface.groups@, edit.target@, 0)->0;
    if seen.contains(edit.target@) {
        Some(EditFault::Submission("Submission contains a duplicate field target"@))
    } else if at >= declaration.fields@.len() {
        Some(EditFault::Submission("Field target does not belong to this interaction"@))
    } else if value_error(declared, value_json(edit.value), choices) is Some {
        Some(EditFault::Value(value_error(declared, value_json(edit.value), choices)->0))
    } else {
        None
    }
}

/// The targets of the first `count` edits.
pub open spec fn edit_targets(edits: Seq<InteractionEdit>, count: int) -> Seq<Seq<u8>> {
    Seq::new(count as nat, |i: int| edits[i].target@)
}

/// The first edit, from the one at `from` on, with which something is wrong, or
/// the number of edits when there is none.
pub open spec fn faulty_edit(
    declaration: InteractionDeclaration,
    surface: InteractionSurface,
    edits: Seq<InteractionEdit>,
    from: int,
) -> int
    decreases edits.len() - from,
{
    if from < 0 || from >= edits.len() {
        edits.len() as int
    } else if edit_fault(declaration, surface, edits[from], edit_targets(edits, from)) is Some {
        from
    } else {
        faulty_edit(declaration, surface, edits, from + 1)
    }
}

/// The property that an edit sets.
pub open spec fn edited_property(
    declaration: InteractionDeclaration,
    surface: InteractionSurface,
    edit: InteractionEdit,
) -> Seq<char> {
    declaration.fields@[field_index(
        declaration.fields@,
        surface.identity.surface_id,
        edit.target,
        0,
    )].1.property@
}

/// The settings after the first `count` edits.
pub open spec fn edited(
    declaration: InteractionDeclaration,
    surface: InteractionSurface,
    settings: Seq<(Seq<char>, JsonView)>,
    edits: Seq<InteractionEdit>,
    count: int,
) -> Seq<(Seq<char>, JsonView)>
    decreases count,
{
    if count <= 0 || count > edits.len() {
        settings
    } else {
        with_member(
            edited(declaration, surface, settings, edits, count - 1),
            edited_property(declaration, surface, edits[count - 1]),
            value_json(edits[count - 1].value),
        )
    }
}

/// One of the first `count` edits changes a setting.
pub open spec fn changes(
    declaration: InteractionDeclaration,
    surface: InteractionSurface,
    settings: Seq<(Seq<char>, JsonView)>,
    edits: Seq<InteractionEdit>,
    count: int,
) -> bool
    decreases count,
{
    if count <= 0 || count > edits.len() {
        false
    } else {
        changes(declaration, surface, settings, edits, count - 1) || !(member(
            edited(declaration, surface, settings, edits, count - 1),
            edited_property(declaration, surface, edits[count - 1]),
        ) matches Some(current) && equal_json(current, value_json(edits[count - 1].value)))
    }
}

/// The pinned settings as members; none where nothing is pinned.
pub open spec fn pinned_members(pinned: JsonView) -> Seq<(Seq<char>, JsonView)> {
    match pinned {
        JsonView::Object(members) => members,
        _ => Seq::empty(),
    }
}

/// What a surface names is what a submission names.
pub open spec fn same_identity(a: InteractionIdentity, b: InteractionIdentity) -> bool {
    &&& a.session_id == b.session_id
    &&& a.branch_id == b.branch_id
    &&& a.extension_id@ == b.extension_id@
    &&& a.package_version@ == b.package_version@
    &&& a.component_sha256@ == b.component_sha256@
    &&& a.declaration_hash@ == b.declaration_hash@
    &&& a.surface_id@ == b.surface_id@
}

pub(crate) fn check_identity(a: &InteractionIdentity, b: &InteractionIdentity) -> (r: bool)
    ensures
        r == same_identity(*a, *b),
{
    let branches = match (a.branch_id, b.branch_id) {
        (Some(x), Some(y)) => x == y,
        (None, None) => true,
        _ => false,
    };
    a.session_id == b.session_id && branches && text::same(
        a.extension_id.as_str(),
        b.extension_id.as_str(),
    ) && text::same(a.package_version.as_str(), b.package_version.as_str())
        && a.component_sha256.same(&b.component_sha256) && a.declaration_hash.same(
        &b.declaration_hash,
    ) && a.surface_id.same(&b.surface_id)
}

/// A decision rejects with a reason, of which the first 256 characters are
/// kept.
pub open spec fn rejects(decision: Decision, reason: Seq<char>) -> bool {
    decision is Reject && decision->Reject_reason@ == at_most(reason, 256)
}

/// A reason that is given, or another.
pub open spec fn reason_or(reason: Option<String>, fallback: Seq<char>) -> Seq<char> {
    match reason {
        Some(r) => r@,
        None => fallback,
    }
}

/// What is decided about edits to save.
pub open spec fn decides_save(
    decision: Decision,
    surface: InteractionSurface,
    declaration: InteractionDeclaration,
    pinned: JsonView,
    target: ContentHash,
    edits: Seq<InteractionEdit>,
) -> bool {
    let faulty = faulty_edit(declaration, surface, edits, 0);
    let settings = pinned_members(pinned);
    let count = edits.len() as int;
    if !is_target(target, surface.identity.surface_id, "save"@, declaration.id@) {
        rejects(decision, "Save target does not belong to this interaction"@)
    } else if !surface.save.enabled {
        rejects(decision, reason_or(surface.save.unavailable_reason, "Save is unavailable"@))
    } else if faulty < edits.len() {
        match edit_fault(declaration, surface, edits[faulty], edit_targets(edits, faulty))->0 {
            EditFault::Submission(reason) => rejects(decision, reason),
            EditFault::Value(reason) => decision is RejectEdit && decision->RejectEdit_target@
                == edits[faulty].target@ && decision->RejectEdit_reason@ == reason,
        }
    } else if !(pinned is Object || pinned is Null) {
        rejects(decision, "Pinned Extension settings must be an object or null"@)
    } else if changes(declaration, surface, settings, edits, count) {
        decision is Save && decision->Save_settings@ == JsonView::Object(
            edited(declaration, surface, settings, edits, count),
        )
    } else {
        decision == Decision::Keep
    }
}

/// What is decided about an action to run.
pub open spec fn decides_invoke(
    decision: Decision,
    surface: InteractionSurface,
    declaration: InteractionDeclaration,
    target: ContentHash,
) -> bool {
    let at = action_index(declaration.actions@, surface.identity.surface_id, target, 0);
    if at >= declaration.actions@.len() {
        rejects(decision, "Action target does not belong to this interaction"@)
    } else if !surface.actions@[at].enabled {
        rejects(
            decision,
            reason_or(surface.actions@[at].unavailable_reason, "Action is unavailable"@),
        )
    } else {
        decision is Invoke && decision->Invoke_command@ == (
        declaration.actions@[at].command->0)@
    }
}

/// What is decided about a submission to a surface.
pub open spec fn decides(
    decision: Decision,
    surface: InteractionSurface,
    declaration: InteractionDeclaration,
    pinned: JsonView,
    identity: InteractionIdentity,
    revision: ContentHash,
    submission: InteractionSubmission,
) -> bool {
    if !same_identity(surface.identity, identity) {
        rejects(
            decision,
            "Interaction identity does not match the current Session, Branch, Extension, package, or adapter"@,
        )
    } else if surface.revision@ != revision@ {
        rejects(decision, "Interaction revision is stale; refresh before submitting"@)
    } else {
        match submission {
            InteractionSubmission::Save { target, edits } => decides_save(
                decision,
                surface,
                declaration,
                pinned,
                target,
                edits@,
            ),
            InteractionSubmission::Invoke { target } => decides_invoke(
                decision,
                surface,
                declaration,
                target,
            ),
        }
    }
}

fn reject(reason: &str) -> (decision: Decision)
    ensures
        rejects(decision, reason@),
{
    Decision::Reject { reason: bounded(reason.to_owned()) }
}

fn reject_given(reason: &Option<String>, fallback: &str) -> (decision: Decision)
    ensures
        rejects(decision, reason_or(*reason, fallback@)),
{
    match reason {
        Some(r) => reject(r.as_str()),
        None => reject(fallback),
    }
}

fn has_target(edits: &Vec<InteractionEdit>, count: usize, target: &ContentHash) -> (r: bool)
    requires
        count <= edits@.len(),
    ensures
        r == edit_targets(edits@, count as int).contains(target@),
{
    let mut i: usize = 0;
    while i < count
        invariant
            i <= count <= edits@.len(),
            forall|j: int| 0 <= j < i ==> (#[trigger] edits@[j]).target@ != target@,
        decreases count - i,
    {
        if edits[i].target.same(target) {
            proof {
                assert(edit_targets(edits@, count as int)[i as int] == target@);
            }
            return true;
        }
        i = i + 1;
    }
    proof {
        assert forall|j: int| 0 <= j < count implies edit_targets(edits@, count as int)[j]
            != target@ by {
            assert(edits@[j].target@ != target@);
        }
    }
    false
}

proof fn lemma_target_on_surface(
    surface: InteractionSurface,
    declaration: InteractionDeclaration,
    target: ContentHash,
    at: int,
)
    requires
        well_formed(declaration),
        aligned(surface, declaration),
        0 <= at < declaration.fields@.len(),
        is_target(
            target,
            surface.identity.surface_id,
            "field"@,
            declaration.fields@[at].0@,
        ),
    ensures
        exists|g: int, k: int|
            0 <= g < surface.groups@.len() && 0 <= k < surface.groups@[g].fields@.len() && (
            #[trigger] surface.groups@[g].fields@[k]).target@ == target@,
{
    let name = declaration.fields@[at].0@;
    assert(is_grouped(declaration.groups@, name));
    let (g, k) = choose|g: int, k: int|
        0 <= g < declaration.groups@.len() && 0 <= k < declaration.groups@[g].fields@.len() && (
        #[trigger] declaration.groups@[g].fields@[k])@ == name;
    assert(surface.groups@[g].fields@.len() == declaration.groups@[g].fields@.len());
    assert(surface.groups@[g].fields@[k].target@ == target@);
}

proof fn lemma_field_index(
    fields: Seq<(String, DeclaredField)>,
    surface: ContentHash,
    target: ContentHash,
    from: int,
)
    requires
        0 <= from <= fields.len(),
    ensures
        from <= field_index(fields, surface, target, from) <= fields.len(),
        field_index(fields, surface, target, from) < fields.len() ==> is_target(
            target,
            surface,
            "field"@,
            fields[field_index(fields, surface, target, from)].0@,
        ),
    decreases fields.len() - from,
{
    if from < fields.len() && !is_target(target, surface, "field"@, fields[from].0@) {
        lemma_field_index(fields, surface, target, from + 1);
    }
}

fn check_edit(
    surface: &InteractionSurface,
    declaration: &InteractionDeclaration,
    edits: &Vec<InteractionEdit>,
    i: usize,
) -> (r: Option<Decision>)
    requires
        well_formed(*declaration),
        aligned(*surface, *declaration),
        i < edits@.len(),
    ensures
        ({
            let fault = edit_fault(
                *declaration,
                *surface,
                edits@[i as int],
                edit_targets(edits@, i as int),
            );
            match r {
                None => fault is None,
                Some(decision) => fault is Some && match fault->0 {
                    EditFault::Submission(reason) => rejects(decision, reason),
                    EditFault::Value(reason) => decision is RejectEdit
                        && decision->RejectEdit_target@ == edits@[i as int].target@
                        && decision->RejectEdit_reason@ == reason,
                },
            }
        }),
{
    let edit = &edits[i];
    if has_target(edits, i, &edit.target) {
        return Some(reject("Submission contains a duplicate field target"));
    }
    proof {
        lemma_field_index(declaration.fields@, surface.identity.surface_id, edit.target, 0);
    }
    let declared = match find_field(declaration, &surface.identity.surface_id, &edit.target) {
        Some(entry) => &entry.1,
        None => {
            return Some(reject("Field target does not belong to this interaction"));
        },
    };
    let ghost at = field_index(
        declaration.fields@,
        surface.identity.surface_id,
        edit.target,
        0,
    );
    proof {
        lemma_target_on_surface(*surface, *declaration, edit.target, at);
    }
    match find_shown(&surface.groups, &edit.target) {
        Some(shown) => match validate_edit(declared, &edit.value, &shown.choices) {
            Ok(_) => None,
            Err(reason) => Some(Decision::RejectEdit { target: edit.target, reason }),
        },
        None => {
            proof {
                assert(false);
            }
            None
        },
    }
}

fn decide_save(
    surface: &InteractionSurface,
    declaration: &InteractionDeclaration,
    pinned: &Json,
    target: &ContentHash,
    edits: &Vec<InteractionEdit>,
) -> (decision: Decision)
    requires
        well_formed(*declaration),
        aligned(*surface, *declaration),
    ensures
        decides_save(decision, *surface, *declaration, pinned@, *target, edits@),
{
    if !is_save_target(declaration, &surface.identity.surface_id, target) {
        return reject("Save target does not belong to this interaction");
    }
    if !surface.save.enabled {
        return reject_given(&surface.save.unavailable_reason, "Save is unavailable");
    }
    let mut i: usize = 0;
    while i < edits.len()
        invariant
            i <= edits@.len(),
            well_formed(*declaration),
            aligned(*surface, *declaration),
            is_target(*target, surface.identity.surface_id, "save"@, declaration.id@),
            surface.save.enabled,
            faulty_edit(*declaration, *surface, edits@, 0) == faulty_edit(
                *declaration,
                *surface,
                edits@,
                i as int,
            ),
        decreases edits@.len() - i,
    {
        match check_edit(surface, declaration, edits, i) {
            Some(decision) => {
                return decision;
            },
            None => {},
        }
        i = i + 1;
    }
    let mut settings = match pinned {
        Json::Object(members) => {
            proof {
                lemma_object_view(*members);
            }
            copy_members(members)
        },
        Json::Null => no_pairs(),
        _ => {
            return reject("Pinned Extension settings must be an object or null");
        },
    };
    let ghost start = pinned_members(pinned@);
    proof {
        assert(members_view(settings@) =~= start);
    }
    let mut changed = false;
    let mut k: usize = 0;
    while k < edits.len()
        invariant
            k <= edits@.len(),
            faulty_edit(*declaration, *surface, edits@, 0) == edits@.len(),
            members_view(settings@) == edited(*declaration, *surface, start, edits@, k as int),
            changed == changes(*declaration, *surface, start, edits@, k as int),
        decreases edits@.len() - k,
    {
        proof {
            lemma_no_fault(*declaration, *surface, edits@, 0, k as int);
            lemma_field_index(
                declaration.fields@,
                surface.identity.surface_id,
                edits@[k as int].target,
                0,
            );
        }
        match find_field(declaration, &surface.identity.surface_id, &edits[k].target) {
            Some(entry) => {
                let value = edits[k].value.to_json();
                let kept = match find_member(&settings, entry.1.property.as_str()) {
                    Some(current) => current.same(&value),
                    None => false,
                };
                if !kept {
                    changed = true;
                }
                set_member(&mut settings, entry.1.property.clone(), value);
            },
            None => {
                proof {
                    assert(false);
                }
            },
        }
        k = k + 1;
    }
    if changed {
        proof {
            lemma_object_view(settings);
        }
        Decision::Save { settings: Json::Object(settings) }
    } else {
        Decision::Keep
    }
}

proof fn lemma_no_fault(
    declaration: InteractionDeclaration,
    surface: InteractionSurface,
    edits: Seq<InteractionEdit>,
    from: int,
    k: int,
)
    requires
        0 <= from <= k < edits.len(),
        faulty_edit(declaration, surface, edits, from) == edits.len(),
    ensures
        edit_fault(declaration, surface, edits[k], edit_targets(edits, k)) is None,
    decreases k - from,
{
    if from < k {
        lemma_no_fault(declaration, surface, edits, from + 1, k);
    }
}

fn decide_invoke(
    surface: &InteractionSurface,
    declaration: &InteractionDeclaration,
    target: &ContentHash,
) -> (decision: Decision)
    requires
        aligned(*surface, *declaration),
    ensures
        decides_invoke(decision, *surface, *declaration, *target),
{
    let at: usize = match find_action(declaration, &surface.identity.surface_id, target) {
        Some(at) => at,
        None => {
            return reject("Action target does not belong to this interaction");
        },
    };
    if !surface.actions[at].enabled {
        return reject_given(&surface.actions[at].unavailable_reason, "Action is unavailable");
    }
    proof {
        assert(surface.actions@[at as int].enabled);
    }
    match &declaration.actions[at].command {
        Some(command) => Decision::Invoke { command: command.clone() },
        None => {
            proof {
                assert(false);
            }
            reject("Action is unavailable")
        },
    }
}

/// Decides what is to be done about a submission. Edits are saved all together
/// or not at all.
pub fn decide_submission(
    surface: &InteractionSurface,
    declaration: &InteractionDeclaration,
    pinned: &Json,
    identity: &InteractionIdentity,
    expected_revision: &ContentHash,
    submission: &InteractionSubmission,
) -> (decision: Decision)
    requires
        well_formed(*declaration),
        aligned(*surface, *declaration),
    ensures
        decides(
            decision,
            *surface,
            *declaration,
            pinned@,
            *identity,
            *expected_revision,
            *submission,
        ),
{
    if !check_identity(&surface.identity, identity) {
        return reject(
            "Interaction identity does not match the current Session, Branch, Extension, package, or adapter",
        );
    }
    if !surface.revision.same(expected_revision) {
        return reject("Interaction revision is stale; refresh before submitting");
    }
    match submission {
        InteractionSubmission::Save { target, edits } => decide_save(
            surface,
            declaration,
            pinned,
            target,
            edits,
        ),
        InteractionSubmission::Invoke { target } => decide_invoke(surface, declaration, target),
    }
}

} // verus!

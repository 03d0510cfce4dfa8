//! What the engine makes of a submission to an extension.
use vstd::prelude::*;

use crate::engine::commands::find_package;
use crate::engine::interactions::{
    are_interactions, InteractionScene, is_pin_surface, is_readable, pin_fate, pin_input,
    refuse_scene, show_pins, shown_places,
};
use crate::engine::plugins::{EngineError, find_pin_index, pin_index};
use crate::engine::sessions::StcliEngine;
use crate::identity::ContentHash;
use crate::interaction::schema::bounded;
use crate::interaction::submission::{
    check_identity, decide_submission, decides, Decision, faulty_edit, InteractionOutcome,
    InteractionResult, InteractionSubmission, law_surfaces_are_aligned, same_identity,
    shown_index,
};
use crate::interaction::surface::{
    InteractionField, InteractionGroup, InteractionIdentity, InteractionSurface,
};
use crate::plugin::{PluginError, PluginRegistry, PluginRuntime};
use crate::session::{PluginPin, SessionConfigurationRecord};
use crate::text::{self, at_most, option_view};
use crate::turn::PluginCommandResult;

verus! {

/// What is to be done about a submission: nothing more than to answer, to bind
/// the session to plugins whose settings are new, or to run a command.
#[derive(Debug)]
pub enum SubmissionStep {
    Answered(InteractionResult),
    /// The plugins are bound where the configuration still has this revision.
    Save { plugins: Vec<PluginPin>, expected: ContentHash },
    Invoke { command: String },
}

/// What the store says to new settings: the revision of the configuration that
/// holds them, or that the configuration is no longer the expected one.
#[derive(Clone, Copy, Debug)]
pub enum SaveReply {
    Saved(ContentHash),
    Conflict,
}

/// The first surface of an extension, from the one at `from` on, or the number of
/// surfaces where there is none.
pub open spec fn surface_index(
    surfaces: Seq<InteractionSurface>,
    extension_id: Seq<char>,
    from: int,
) -> int
    decreases surfaces.len() - from,
{
    if from < 0 || from >= surfaces.len() {
        surfaces.len() as int
    } else if surfaces[from].identity.extension_id@ == extension_id {
        from
    } else {
        surface_index(surfaces, extension_id, from + 1)
    }
}

fn find_surface_index(surfaces: &Vec<InteractionSurface>, extension_id: &str) -> (at: usize)
    ensures
        at == surface_index(surfaces@, extension_id@, 0),
        at <= surfaces@.len(),
{
    let mut i: usize = 0;
    while i < surfaces.len()
        invariant
            i <= surfaces@.len(),
            surface_index(surfaces@, extension_id@, 0) == surface_index(
                surfaces@,
                extension_id@,
                i as int,
            ),
        decreases surfaces@.len() - i,
    {
        if text::same(surfaces[i].identity.extension_id.as_str(), extension_id) {
            return i;
        }
        i = i + 1;
    }
    i
}

/// The place of the first setting with a target, from the group at `from` on.
pub open spec fn field_place(groups: Seq<InteractionGroup>, target: Seq<u8>, from: int) -> Option<
    (int, int),
>
    decreases groups.len() - from,
{
    if from < 0 || from >= groups.len() {
        None
    } else {
        let at = shown_index(groups[from].fields@, target, 0);
        if 0 <= at < groups[from].fields@.len() {
            Some((from, at))
        } else {
            field_place(groups, target, from + 1)
        }
    }
}

fn find_shown_index(fields: &Vec<InteractionField>, target: &ContentHash) -> (at: usize)
    ensures
        at == shown_index(fields@, target@, 0),
        at <= fields@.len(),
{
    let mut k: usize = 0;
    while k < fields.len()
        invariant
            k <= fields@.len(),
            shown_index(fields@, target@, 0) == shown_index(fields@, target@, k as int),
        decreases fields@.len() - k,
    {
        if fields[k].target.same(target) {
            return k;
        }
        k = k + 1;
    }
    k
}

fn find_field_place(groups: &Vec<InteractionGroup>, target: &ContentHash) -> (place: Option<
    (usize, usize),
>)
    ensures
        match (place, field_place(groups@, target@, 0)) {
            (Some((g, k)), Some(expected)) => expected == (g as int, k as int) && g < groups@.len()
                && k < groups@[g as int].fields@.len(),
            (None, None) => true,
            _ => false,
        },
{
    let mut g: usize = 0;
    while g < groups.len()
        invariant
            g <= groups@.len(),
            field_place(groups@, target@, 0) == field_place(groups@, target@, g as int),
        decreases groups@.len() - g,
    {
        let k: usize = find_shown_index(&groups[g].fields, target);
        if k < groups[g].fields.len() {
            return Some((g, k));
        }
        g = g + 1;
    }
    None
}

/// The settings of a group, one of them with an error.
pub open spec fn is_marked_group(
    marked: InteractionGroup,
    group: InteractionGroup,
    at: int,
    reason: Seq<char>,
) -> bool {
    let field = group.fields@[at];
    &&& marked == (InteractionGroup { fields: marked.fields, ..group })
    &&& marked.fields@ == group.fields@.update(
        at,
        InteractionField { error: marked.fields@[at].error, ..field },
    )
    &&& option_view(marked.fields@[at].error) == Some(reason)
}

/// A surface on which the setting with a target, where there is one, has an error.
pub open spec fn is_marked_surface(
    marked: InteractionSurface,
    surface: InteractionSurface,
    target: Seq<u8>,
    reason: Seq<char>,
) -> bool {
    match field_place(surface.groups@, target, 0) {
        None => marked == surface,
        Some((g, k)) => {
            &&& marked == (InteractionSurface { groups: marked.groups, ..surface })
            &&& marked.groups@ == surface.groups@.update(g, marked.groups@[g])
            &&& is_marked_group(marked.groups@[g], surface.groups@[g], k, reason)
        },
    }
}

fn mark_surface(surface: InteractionSurface, target: &ContentHash, reason: &String) -> (marked:
    InteractionSurface)
    ensures
        is_marked_surface(marked, surface, target@, reason@),
{
    let (g, k) = match find_field_place(&surface.groups, target) {
        None => return surface,
        Some(place) => place,
    };
    let mut marked = surface;
    let mut group = marked.groups.remove(g);
    let mut field = group.fields.remove(k);
    field.error = Some(reason.clone());
    let ghost with_error = field;
    group.fields.insert(k, field);
    let ghost in_group = group;
    proof {
        assert(group.fields@ =~= surface.groups@[g as int].fields@.update(k as int, with_error));
    }
    marked.groups.insert(g, group);
    proof {
        assert(marked.groups@ =~= surface.groups@.update(g as int, in_group));
    }
    marked
}

/// The outcome rejects a submission for a reason.
pub open spec fn is_told(outcome: InteractionOutcome, reason: Seq<char>) -> bool {
    outcome matches InteractionOutcome::Rejected { reason: told } && told@ == reason
}

/// The extension is not there to be submitted to, for a reason.
pub open spec fn is_unavailable(e: EngineError, reason: Seq<char>) -> bool {
    e matches EngineError::InteractionUnavailable(told) && told@ == reason
}

/// The answer that rejects a submission.
pub open spec fn is_rejection(
    step: SubmissionStep,
    surface: InteractionSurface,
    reason: Seq<char>,
) -> bool {
    step matches SubmissionStep::Answered(result) && result.surface == surface && is_told(
        result.outcome,
        at_most(reason, 256),
    )
}

/// What is to be done once it is decided what becomes of a submission.
pub open spec fn is_step(
    step: SubmissionStep,
    decision: Decision,
    surface: InteractionSurface,
    configuration: SessionConfigurationRecord,
    at: int,
) -> bool {
    let pins = configuration.configuration.plugins@;
    match decision {
        Decision::Reject { reason } => step matches SubmissionStep::Answered(result)
            && result.surface == surface && result.outcome == (InteractionOutcome::Rejected {
            reason,
        }),
        Decision::RejectEdit { target, reason } => step matches SubmissionStep::Answered(result)
            && is_marked_surface(result.surface, surface, target@, reason@) && is_told(
            result.outcome,
            at_most(reason@, 256),
        ),
        Decision::Keep => step matches SubmissionStep::Answered(result) && result.surface
            == surface && result.outcome == (InteractionOutcome::Saved {
            configuration_revision: configuration.revision_hash,
        }),
        Decision::Save { settings } => step matches SubmissionStep::Save { plugins, expected }
            && plugins@ == pins.update(at, PluginPin { settings, ..pins[at] }) && expected
            == configuration.revision_hash,
        Decision::Invoke { command } => step == (SubmissionStep::Invoke { command }),
    }
}

/// What becomes of a submission to the surface of the pin at a place.
pub open spec fn is_addressed(
    r: Result<SubmissionStep, EngineError>,
    surface: InteractionSurface,
    place: int,
    identity: InteractionIdentity,
    revision: ContentHash,
    submission: InteractionSubmission,
    scene: InteractionScene,
) -> bool {
    let pins = scene.pins();
    let at = pin_index(pins, identity.extension_id@, 0);
    if !same_identity(surface.identity, identity) {
        r matches Ok(step) && is_rejection(
            step,
            surface,
            "Interaction identity does not match the current Session, Branch, Extension, package, or adapter"@,
        )
    } else if surface.revision@ != revision@ {
        r matches Ok(step) && is_rejection(
            step,
            surface,
            "Interaction revision is stale; refresh before submitting"@,
        )
    } else if at >= pins.len() {
        r matches Err(e) && is_unavailable(e, "Extension is not pinned"@)
    } else if at != place {
        match scene.readings@[at].declaration {
            Err(fault) => r == Err::<SubmissionStep, EngineError>(EngineError::Plugin(fault)),
            Ok(_) => r matches Err(e) && is_unavailable(
                e,
                "Extension has no declared interaction"@,
            ),
        }
    } else {
        r matches Ok(step) && exists|decision: Decision|
            #[trigger] decides(
                decision,
                surface,
                scene.readings@[at].declaration->Ok_0->0,
                pins[at].settings@,
                identity,
                revision,
                submission,
            ) && is_step(step, decision, surface, scene.configuration, at)
    }
}

/// What becomes of a submission, of which the size as JSON is known: it is too
/// large, the extensions of the session cannot be shown, the extension is not
/// among them, or its surface is addressed.
pub open spec fn is_submitted(
    r: Result<SubmissionStep, EngineError>,
    bytes: usize,
    identity: InteractionIdentity,
    revision: ContentHash,
    submission: InteractionSubmission,
    scene: InteractionScene,
) -> bool {
    if bytes > MAX_SUBMISSION_BYTES {
        r == Err::<SubmissionStep, EngineError>(EngineError::Plugin(PluginError::InputLimit))
    } else {
        ||| r matches Err(e) && are_interactions(Err(e), scene)
        ||| exists|surfaces: Vec<InteractionSurface>|
            #[trigger] are_interactions(Ok(surfaces), scene) && {
                let k = surface_index(surfaces@, identity.extension_id@, 0);
                if k >= surfaces@.len() {
                    r matches Err(e) && is_unavailable(
                        e,
                        at_most("Extension interaction is no longer available"@, 256),
                    )
                } else {
                    is_addressed(
                        r,
                        surfaces@[k],
                        shown_places(scene, scene.pins().len() as int)[k],
                        identity,
                        revision,
                        submission,
                        scene,
                    )
                }
            }
    }
}

/// The most bytes that a submission may have.
pub const MAX_SUBMISSION_BYTES: usize = 262144;

fn check_shown(registry: &PluginRegistry, scene: &InteractionScene, i: usize) -> (r: bool)
    requires
        scene.wf(),
        i < scene.pins().len(),
    ensures
        r == (pin_fate(*scene, i as int) is Shown),
{
    let pin = &scene.configuration.configuration.plugins[i];
    match find_package(registry, &scene.listing, &pin.id, &pin.version, &pin.component_hash) {
        Err(_) => false,
        Ok(installed) => installed.manifest.runtime == PluginRuntime::StBridge
            && match &scene.readings[i].declaration {
            Ok(Some(_)) => true,
            _ => false,
        },
    }
}

proof fn lemma_places_grow(scene: InteractionScene, count: int, k: int)
    requires
        0 <= count <= scene.pins().len(),
        0 <= k < shown_places(scene, count).len(),
    ensures
        k < shown_places(scene, scene.pins().len() as int).len(),
        shown_places(scene, scene.pins().len() as int)[k] == shown_places(scene, count)[k],
    decreases scene.pins().len() - count,
{
    if count < scene.pins().len() {
        assert(shown_places(scene, count + 1)[k] == shown_places(scene, count)[k]);
        lemma_places_grow(scene, count + 1, k);
    }
}

fn find_place(registry: &PluginRegistry, scene: &InteractionScene, k: usize) -> (place: usize)
    requires
        scene.wf(),
        k < shown_places(*scene, scene.pins().len() as int).len(),
    ensures
        place == shown_places(*scene, scene.pins().len() as int)[k as int],
        place < scene.pins().len(),
        pin_fate(*scene, place as int) is Shown,
{
    let total: usize = scene.configuration.configuration.plugins.len();
    let mut i: usize = 0;
    let mut shown: usize = 0;
    while i < total
        invariant
            i <= total,
            total == scene.pins().len(),
            scene.wf(),
            shown == shown_places(*scene, i as int).len(),
            shown <= k,
            shown <= i,
            k < shown_places(*scene, total as int).len(),
        decreases total - i,
    {
        if check_shown(registry, scene, i) {
            if shown == k {
                proof {
                    assert(shown_places(*scene, i + 1)[k as int] == i);
                    lemma_places_grow(*scene, i + 1, k as int);
                }
                return i;
            }
            shown = shown + 1;
        }
        i = i + 1;
    }
    vstd::pervasive::unreached()
}

fn take_step(
    decision: Decision,
    surface: InteractionSurface,
    configuration: SessionConfigurationRecord,
    at: usize,
) -> (step: SubmissionStep)
    requires
        at < configuration.configuration.plugins@.len(),
    ensures
        is_step(step, decision, surface, configuration, at as int),
{
    match decision {
        Decision::Reject { reason } => SubmissionStep::Answered(
            InteractionResult { surface, outcome: InteractionOutcome::Rejected { reason } },
        ),
        Decision::RejectEdit { target, reason } => {
            let marked = mark_surface(surface, &target, &reason);
            SubmissionStep::Answered(
                InteractionResult {
                    surface: marked,
                    outcome: InteractionOutcome::Rejected { reason: bounded(reason) },
                },
            )
        },
        Decision::Keep => SubmissionStep::Answered(
            InteractionResult {
                surface,
                outcome: InteractionOutcome::Saved {
                    configuration_revision: configuration.revision_hash,
                },
            },
        ),
        Decision::Save { settings } => {
            let ghost pins = configuration.configuration.plugins@;
            let mut plugins = configuration.configuration.plugins;
            let mut pin = plugins.remove(at);
            pin.settings = settings;
            let ghost changed = pin;
            plugins.insert(at, pin);
            proof {
                assert(plugins@ =~= pins.update(at as int, changed));
            }
            SubmissionStep::Save { plugins, expected: configuration.revision_hash }
        },
        Decision::Invoke { command } => SubmissionStep::Invoke { command },
    }
}

fn reject_with(surface: InteractionSurface, reason: &str) -> (step: SubmissionStep)
    ensures
        is_rejection(step, surface, reason@),
{
    SubmissionStep::Answered(
        InteractionResult {
            surface,
            outcome: InteractionOutcome::Rejected { reason: bounded(reason.to_owned()) },
        },
    )
}

fn address(
    surface: InteractionSurface,
    place: usize,
    identity: &InteractionIdentity,
    revision: &ContentHash,
    submission: &InteractionSubmission,
    scene: InteractionScene,
) -> (r: Result<SubmissionStep, EngineError>)
    requires
        scene.wf(),
        place < scene.pins().len(),
        pin_fate(scene, place as int) is Shown,
        is_pin_surface(surface, scene, place as int),
    ensures
        is_addressed(r, surface, place as int, *identity, *revision, *submission, scene),
{
    if !check_identity(&surface.identity, identity) {
        return Ok(
            reject_with(
                surface,
                "Interaction identity does not match the current Session, Branch, Extension, package, or adapter",
            ),
        );
    }
    if !surface.revision.same(revision) {
        return Ok(
            reject_with(surface, "Interaction revision is stale; refresh before submitting"),
        );
    }
    let at: usize = find_pin_index(
        &scene.configuration.configuration.plugins,
        identity.extension_id.as_str(),
    );
    if at >= scene.configuration.configuration.plugins.len() {
        return Err(EngineError::InteractionUnavailable("Extension is not pinned".to_owned()));
    }
    if at != place {
        let mut readings = scene.readings;
        return match readings.remove(at).declaration {
            Err(fault) => Err(EngineError::Plugin(fault)),
            Ok(_) => Err(
                EngineError::InteractionUnavailable(
                    "Extension has no declared interaction".to_owned(),
                ),
            ),
        };
    }
    let decision = match &scene.readings[at].declaration {
        Ok(Some(declaration)) => {
            proof {
                assert(is_readable(scene.readings@[at as int], scene.pins()[at as int]));
                law_surfaces_are_aligned(surface, pin_input(&scene, at as int));
            }
            decide_submission(
                &surface,
                declaration,
                &scene.configuration.configuration.plugins[at].settings,
                identity,
                revision,
                submission,
            )
        },
        _ => vstd::pervasive::unreached(),
    };
    let ghost decided = decision;
    let step = take_step(decision, surface, scene.configuration, at);
    proof {
        assert(decides(
            decided,
            surface,
            scene.readings@[at as int].declaration->Ok_0->0,
            scene.pins()[at as int].settings@,
            *identity,
            *revision,
            *submission,
        ));
    }
    Ok(step)
}

impl StcliEngine {
    /// Decides what is to be done about a submission to an extension.
    pub fn submit_extension_interaction(
        &self,
        bytes: usize,
        identity: &InteractionIdentity,
        expected_revision: &ContentHash,
        submission: &InteractionSubmission,
        scene: InteractionScene,
    ) -> (r: Result<SubmissionStep, EngineError>)
        requires
            scene.wf(),
        ensures
            is_submitted(r, bytes, *identity, *expected_revision, *submission, scene),
    {
        if bytes > MAX_SUBMISSION_BYTES {
            return Err(EngineError::Plugin(PluginError::InputLimit));
        }
        let registry = PluginRegistry::new(self.plugin_root());
        let mut surfaces = match show_pins(&registry, &scene) {
            Ok(surfaces) => surfaces,
            Err(stop) => return Err(refuse_scene(stop, scene)),
        };
        let ghost shown = surfaces;
        proof {
            assert(are_interactions(Ok(shown), scene));
        }
        let k: usize = find_surface_index(&surfaces, identity.extension_id.as_str());
        if k >= surfaces.len() {
            return Err(
                EngineError::InteractionUnavailable(
                    bounded("Extension interaction is no longer available".to_owned()),
                ),
            );
        }
        let place: usize = find_place(&registry, &scene, k);
        let surface = surfaces.remove(k);
        proof {
            assert(is_pin_surface(shown@[k as int], scene, place as int));
        }
        address(surface, place, identity, expected_revision, submission, scene)
    }

    /// Answers a submission once its settings have been put to the store, with the
    /// extensions as they are shown afterwards.
    pub fn finish_save(
        &self,
        extension_id: &str,
        reply: SaveReply,
        surfaces: Vec<InteractionSurface>,
    ) -> (r: Result<InteractionResult, EngineError>)
        ensures
            is_saved(r, extension_id@, reply, surfaces@),
    {
        let k: usize = find_surface_index(&surfaces, extension_id);
        if k >= surfaces.len() {
            return match reply {
                SaveReply::Saved(_) => Err(
                    EngineError::InteractionUnavailable(
                        "Extension interaction disappeared after Save".to_owned(),
                    ),
                ),
                SaveReply::Conflict => Err(
                    EngineError::InteractionUnavailable(
                        "Extension interaction disappeared during Save".to_owned(),
                    ),
                ),
            };
        }
        let mut surfaces = surfaces;
        let surface = surfaces.remove(k);
        match reply {
            SaveReply::Saved(configuration_revision) => Ok(
                InteractionResult {
                    surface,
                    outcome: InteractionOutcome::Saved { configuration_revision },
                },
            ),
            SaveReply::Conflict => Ok(
                InteractionResult {
                    surface,
                    outcome: InteractionOutcome::Rejected {
                        reason:
                            "Interaction revision changed during Save; refresh before submitting".to_owned(),
                    },
                },
            ),
        }
    }

    /// Answers a submission once its command has been run, with the extensions as
    /// they are shown afterwards.
    pub fn finish_invoke(
        &self,
        extension_id: &str,
        result: PluginCommandResult,
        surfaces: Vec<InteractionSurface>,
    ) -> (r: Result<InteractionResult, EngineError>)
        ensures
            ({
                let k = surface_index(surfaces@, extension_id@, 0);
                match r {
                    Ok(told) => k < surfaces@.len() && told.surface == surfaces@[k] && told.outcome
                        == (InteractionOutcome::Invoked { result: Box::new(result) }),
                    Err(e) => k >= surfaces@.len() && is_unavailable(
                        e,
                        "Extension interaction disappeared after action"@,
                    ),
                }
            }),
    {
        let k: usize = find_surface_index(&surfaces, extension_id);
        if k >= surfaces.len() {
            return Err(
                EngineError::InteractionUnavailable(
                    "Extension interaction disappeared after action".to_owned(),
                ),
            );
        }
        let mut surfaces = surfaces;
        let surface = surfaces.remove(k);
        Ok(
            InteractionResult {
                surface,
                outcome: InteractionOutcome::Invoked { result: Box::new(result) },
            },
        )
    }
}

/// The answer to a submission whose settings have been put to the store.
pub open spec fn is_saved(
    r: Result<InteractionResult, EngineError>,
    extension_id: Seq<char>,
    reply: SaveReply,
    surfaces: Seq<InteractionSurface>,
) -> bool {
    let k = surface_index(surfaces, extension_id, 0);
    if k >= surfaces.len() {
        r matches Err(e) && is_unavailable(
            e,
            match reply {
                SaveReply::Saved(_) => "Extension interaction disappeared after Save"@,
                SaveReply::Conflict => "Extension interaction disappeared during Save"@,
            },
        )
    } else {
        r matches Ok(told) && told.surface == surfaces[k] && match reply {
            SaveReply::Saved(configuration_revision) => told.outcome == (
            InteractionOutcome::Saved { configuration_revision }),
            SaveReply::Conflict => is_told(
                told.outcome,
                "Interaction revision changed during Save; refresh before submitting"@,
            ),
        }
    }
}

/// Settings are saved only for the current revision of the surface that was shown,
/// and only where nothing is wrong with any of the edits.
pub proof fn law_only_sound_submissions_are_saved(
    plugins: Vec<PluginPin>,
    expected: ContentHash,
    surface: InteractionSurface,
    place: int,
    identity: InteractionIdentity,
    revision: ContentHash,
    submission: InteractionSubmission,
    scene: InteractionScene,
)
    requires
        is_addressed(
            Ok(SubmissionStep::Save { plugins, expected }),
            surface,
            place,
            identity,
            revision,
            submission,
            scene,
        ),
    ensures
        same_identity(surface.identity, identity),
        surface.revision@ == revision@,
        expected == scene.configuration.revision_hash,
        submission matches InteractionSubmission::Save { edits, .. } && faulty_edit(
            scene.readings@[pin_index(scene.pins(), identity.extension_id@, 0)].declaration->Ok_0->0,
            surface,
            edits@,
            0,
        ) >= edits@.len(),
{
    let at = pin_index(scene.pins(), identity.extension_id@, 0);
    let declaration = scene.readings@[at].declaration->Ok_0->0;
    let decision = choose|decision: Decision|
        #[trigger] decides(
            decision,
            surface,
            declaration,
            scene.pins()[at].settings@,
            identity,
            revision,
            submission,
        ) && is_step(
            SubmissionStep::Save { plugins, expected },
            decision,
            surface,
            scene.configuration,
            at,
        );
    assert(decision is Save);
}

} // verus!

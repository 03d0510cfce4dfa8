//! What holds of every capsule that is taken.
use vstd::prelude::*;
use vstd::utf8::encode_utf8;

use crate::artifact::revision::blob_hash_of;
use crate::capsule::{
    artifact_fault, artifacts_fault, at_hand, capabilities_of, capsule_fault, CapsuleArtifact,
    CapsuleFacts, has_revision, pin_from, receipt_error, receipts_error,
    SESSION_CONFIGURATION_DOMAIN, TurnCapsule,
};
use crate::identity::{canonical_hash_of, ContentHash, hash_text, SESSION_PROJECTION_DOMAIN};
use crate::lore::group_laws::lemma_with_names;
use crate::plugin::PluginReceipt;
use crate::session::{artifacts_of, named_artifacts, PluginPin, SessionConfiguration};

verus! {

/// A configuration names an artifact: as its character, as one of its lorebooks or as
/// its preset.
pub open spec fn names_artifact(configuration: SessionConfiguration, name: Seq<char>) -> bool {
    ||| hash_text(configuration.character_revision@) == name
    ||| exists|k: int|
        0 <= k < configuration.lorebook_revisions@.len() && hash_text(
            (#[trigger] configuration.lorebook_revisions@[k])@,
        ) == name
    ||| configuration.prompt_preset_revision matches Some(preset) && hash_text(preset@) == name
}

/// The artifacts of a configuration are those that it names, each once and in
/// ascending order.
pub proof fn law_configurations_name_their_artifacts(
    configuration: SessionConfiguration,
    name: Seq<char>,
)
    ensures
        artifacts_of(configuration).contains(name) <==> names_artifact(configuration, name),
        crate::text::ascending(artifacts_of(configuration)),
{
    let named = named_artifacts(configuration);
    lemma_with_names(Seq::empty(), named, name);
    let books = configuration.lorebook_revisions@;
    let first = seq![hash_text(configuration.character_revision@)]
        + crate::session::hash_texts(books);
    if names_artifact(configuration, name) {
        if hash_text(configuration.character_revision@) == name {
            assert(named[0] == name);
        } else if exists|k: int| 0 <= k < books.len() && hash_text((#[trigger] books[k])@) == name {
            let k = choose|k: int|
                0 <= k < books.len() && hash_text((#[trigger] books[k])@) == name;
            assert(named[k + 1] == name);
        } else {
            assert(named[first.len() as int] == name);
        }
        assert(named.contains(name));
    }
    if named.contains(name) {
        let i = choose|i: int| 0 <= i < named.len() && named[i] == name;
        if 0 < i <= books.len() {
            assert(hash_text(books[i - 1]@) == name);
        }
    }
}

proof fn lemma_no_fault(
    artifacts: Seq<CapsuleArtifact>,
    from: int,
    facts: CapsuleFacts,
    i: int,
)
    requires
        0 <= from <= i < artifacts.len(),
        artifacts_fault(
            artifacts,
            from,
            facts.parses@,
            facts.blobs@,
            facts.artifact_limit,
        ) is None,
    ensures
        artifact_fault(artifacts, i, facts.parses@, facts.blobs@, facts.artifact_limit) is None,
    decreases i - from,
{
    if from < i {
        lemma_no_fault(artifacts, from + 1, facts, i);
    }
}

/// No two artifacts of a capsule that is taken are of one revision. Each holds the
/// source that its digest tells, within the limit, or its source is at hand.
pub proof fn law_taken_artifacts_are_sound(
    capsule: TurnCapsule,
    facts: CapsuleFacts,
    i: int,
    j: int,
)
    requires
        capsule_fault(capsule, facts) is None,
        0 <= i < capsule.artifacts@.len(),
    ensures
        match capsule.artifacts@[i].source {
            Some(source) => {
                &&& blob_hash_of(encode_utf8(source@))
                    == capsule.artifacts@[i].record.source_blob_hash@
                &&& encode_utf8(source@).len() <= facts.artifact_limit
            },
            None => exists|k: int|
                0 <= k < facts.blobs@.len() && (#[trigger] facts.blobs@[k])@
                    == capsule.artifacts@[i].record.source_blob_hash@,
        },
        i < j < capsule.artifacts@.len() ==> capsule.artifacts@[i].record.revision_hash@
            != capsule.artifacts@[j].record.revision_hash@,
{
    lemma_no_fault(capsule.artifacts@, 0, facts, i);
    if i < j < capsule.artifacts@.len() {
        lemma_no_fault(capsule.artifacts@, 0, facts, j);
        assert(!crate::capsule::is_repeated(capsule.artifacts@, j));
        assert(capsule.artifacts@[i].record.revision_hash@
            != capsule.artifacts@[j].record.revision_hash@);
    }
}

/// A capsule that is taken holds the artifacts that its configuration names, all of
/// them and no others.
pub proof fn law_taken_artifacts_are_those_named(
    capsule: TurnCapsule,
    facts: CapsuleFacts,
    i: int,
    name: Seq<char>,
)
    requires
        capsule_fault(capsule, facts) is None,
    ensures
        capsule.configuration matches Some(record) && {
            &&& 0 <= i < capsule.artifacts@.len() ==> names_artifact(
                record.configuration,
                hash_text(capsule.artifacts@[i].record.revision_hash@),
            )
            &&& names_artifact(record.configuration, name) ==> exists|k: int|
                0 <= k < capsule.artifacts@.len() && hash_text(
                    (#[trigger] capsule.artifacts@[k]).record.revision_hash@,
                ) == name
        },
{
    let configuration = capsule.configuration->0.configuration;
    law_configurations_name_their_artifacts(configuration, name);
    if 0 <= i < capsule.artifacts@.len() {
        law_configurations_name_their_artifacts(
            configuration,
            hash_text(capsule.artifacts@[i].record.revision_hash@),
        );
    }
    if names_artifact(configuration, name) {
        let all = artifacts_of(configuration);
        let k = choose|k: int| 0 <= k < all.len() && all[k] == name;
        assert(has_revision(capsule.artifacts@, all[k]));
    }
}

proof fn lemma_pin(pins: Seq<PluginPin>, id: Seq<char>, i: int)
    requires
        0 <= i <= pins.len(),
    ensures
        pin_from(pins, id, i) matches Some(pin) ==> exists|k: int|
            i <= k < pins.len() && #[trigger] pins[k] == pin && pin.id@ == id,
    decreases pins.len() - i,
{
    if i < pins.len() {
        if pins[i].id@ != id {
            lemma_pin(pins, id, i + 1);
            if pin_from(pins, id, i + 1) is Some {
                let pin = pin_from(pins, id, i + 1)->0;
                let k = choose|k: int|
                    i + 1 <= k < pins.len() && #[trigger] pins[k] == pin && pin.id@ == id;
                assert(pins[k] == pin);
            }
        } else {
            assert(pins[i] == pin_from(pins, id, i)->0);
        }
    }
}

proof fn lemma_receipts(
    receipts: Seq<PluginReceipt>,
    pins: Seq<PluginPin>,
    from: int,
    i: int,
)
    requires
        0 <= from <= i < receipts.len(),
        receipts_error(receipts, pins, from) is None,
    ensures
        receipt_error(receipts[i], pins) is None,
    decreases i - from,
{
    if from < i {
        lemma_receipts(receipts, pins, from + 1, i);
    }
}

/// Each run of a plugin that a capsule records was made by a plugin that its
/// configuration pins: of that version and component, with those capabilities.
pub proof fn law_recorded_runs_are_pinned(capsule: TurnCapsule, facts: CapsuleFacts, i: int)
    requires
        capsule_fault(capsule, facts) is None,
    ensures
        capsule.configuration matches Some(record) && capsule.effects matches Some(effects) && (0
            <= i < effects.plugins@.len() ==> exists|k: int|
            {
                &&& 0 <= k < record.configuration.plugins@.len()
                &&& (#[trigger] record.configuration.plugins@[k]).id@ == effects.plugins@[i].id@
                &&& record.configuration.plugins@[k].version@ == effects.plugins@[i].version@
                &&& record.configuration.plugins@[k].component_hash@
                    == effects.plugins@[i].component_sha256@
                &&& record.configuration.plugins@[k].capabilities@ == effects.plugins@[i].grants@
            }),
{
    let record = capsule.configuration->0;
    let effects = capsule.effects->0;
    if 0 <= i < effects.plugins@.len() {
        let pins = record.configuration.plugins@;
        lemma_receipts(effects.plugins@, pins, 0, i);
        lemma_pin(pins, effects.plugins@[i].id@, 0);
        let pin = pin_from(pins, effects.plugins@[i].id@, 0)->0;
        let k = choose|k: int|
            0 <= k < pins.len() && #[trigger] pins[k] == pin && pin.id@
                == effects.plugins@[i].id@;
        assert(pins[k].id@ == effects.plugins@[i].id@);
    }
}

/// The hashes that a capsule tells are those of what it holds, and all its parts are of
/// one turn.
pub proof fn law_taken_capsules_hold_together(capsule: TurnCapsule, facts: CapsuleFacts)
    requires
        capsule_fault(capsule, facts) is None,
    ensures
        capsule.compatibility.feature_manifest_digest@ == facts.feature_manifest_digest@,
        capsule.configuration matches Some(record) && {
            &&& canonical_hash_of(
                SESSION_CONFIGURATION_DOMAIN@,
                record.configuration.value@,
            ) == Some(record.revision_hash@)
            &&& capsule.result.projection matches Some(projection) && {
                &&& projection.attempt.config_hash@ == record.revision_hash@
                &&& projection.turn.session_id == capsule.identity.session_id
                &&& projection.turn.branch_id == capsule.identity.branch_id
                &&& projection.turn.turn_id == capsule.identity.turn_id
                &&& projection.attempt.attempt_id == capsule.identity.attempt_id
                &&& projection.attempt.turn_id == capsule.identity.turn_id
                &&& projection.candidate matches Some(candidate) ==> candidate.turn_id
                    == capsule.identity.turn_id && candidate.attempt_id == Some(
                    capsule.identity.attempt_id,
                )
                &&& capsule.result.projection_hash matches Some(told) && canonical_hash_of(
                    SESSION_PROJECTION_DOMAIN@,
                    projection.value@,
                ) == Some(told@)
            }
        },
        capsule.effects matches Some(effects) && effects.provider_request_hash@
            == facts.request_hash@,
        capsule.provider.request_hash matches Some(told) && told@ == facts.request_hash@,
{
}

/// A capsule can be replayed only where nothing was redacted, it holds its parts, and
/// every blob that it refers to is within it or at hand; it can be run again only where
/// it tells the request too.
pub proof fn law_replay_needs_all_parts(capsule: TurnCapsule, blobs: Seq<ContentHash>, i: int)
    requires
        capabilities_of(capsule, blobs).replay,
    ensures
        capsule.redactions@.len() == 0,
        capsule.configuration is Some,
        capsule.baseline is Some,
        capsule.effects is Some,
        capsule.prompt is Some,
        capsule.result.projection is Some,
        capsule.result.projection_hash is Some,
        0 <= i < capsule.references@.len() ==> capsule.references@[i].embedded || exists|k: int|
            0 <= k < blobs.len() && (#[trigger] blobs[k])@ == capsule.references@[i].blob_hash@,
        capabilities_of(capsule, blobs).rerun <==> capsule.provider.request_hash is Some,
{
    if 0 <= i < capsule.references@.len() {
        assert(capsule.references@[i].embedded || at_hand(
            blobs,
            capsule.references@[i].blob_hash@,
        ));
    }
}

} // verus!

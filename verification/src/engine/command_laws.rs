//! What commands make of the plugins of a session.
use vstd::prelude::*;

use crate::egress::EgressAllowance;
use crate::engine::commands::{
    CommandFacts, EngineAction, is_adopting, is_switched, package_from, package_of,
};
use crate::engine::plugins::{law_adoption_keeps_one_pin, pin_index};
use crate::identity::{ContentHash, EntityId};
use crate::json::Json;
use crate::plugin::{InstalledPlugin, PluginCapability};
use crate::session::PluginPin;

verus! {

proof fn lemma_package(
    listing: Seq<InstalledPlugin>,
    id: Seq<char>,
    version: Seq<char>,
    digest: Seq<u8>,
    i: int,
)
    requires
        0 <= i <= listing.len(),
    ensures
        match package_from(listing, id, version, digest, i) {
            Some(plugin) => exists|k: int|
                {
                    &&& i <= k < listing.len()
                    &&& #[trigger] listing[k] == plugin
                    &&& plugin.manifest.id@ == id
                    &&& plugin.manifest.version@ == version
                    &&& plugin.manifest.component_sha256@ == digest
                },
            None => forall|k: int|
                i <= k < listing.len() ==> !((#[trigger] listing[k]).manifest.id@ == id
                    && listing[k].manifest.version@ == version
                    && listing[k].manifest.component_sha256@ == digest),
        },
    decreases listing.len() - i,
{
    if i < listing.len() {
        lemma_package(listing, id, version, digest, i + 1);
        match package_from(listing, id, version, digest, i) {
            Some(plugin) => {
                if listing[i] != plugin {
                    let k = choose|k: int|
                        {
                            &&& i + 1 <= k < listing.len()
                            &&& #[trigger] listing[k] == plugin
                            &&& plugin.manifest.id@ == id
                            &&& plugin.manifest.version@ == version
                            &&& plugin.manifest.component_sha256@ == digest
                        };
                    assert(listing[k] == plugin);
                } else {
                    assert(listing[i] == plugin);
                }
            },
            None => {},
        }
    }
}

/// A package is found if and only if it is listed, under just that identity, version
/// and digest.
pub proof fn law_packages_are_found_as_listed(
    listing: Seq<InstalledPlugin>,
    id: Seq<char>,
    version: Seq<char>,
    digest: Seq<u8>,
)
    ensures
        match package_of(listing, id, version, digest) {
            Some(plugin) => exists|k: int|
                {
                    &&& 0 <= k < listing.len()
                    &&& #[trigger] listing[k] == plugin
                    &&& plugin.manifest.id@ == id
                    &&& plugin.manifest.version@ == version
                    &&& plugin.manifest.component_sha256@ == digest
                },
            None => forall|k: int|
                0 <= k < listing.len() ==> !((#[trigger] listing[k]).manifest.id@ == id
                    && listing[k].manifest.version@ == version
                    && listing[k].manifest.component_sha256@ == digest),
        },
{
    lemma_package(listing, id, version, digest, 0);
}

proof fn lemma_pin_index(pins: Seq<PluginPin>, id: Seq<char>, i: int)
    requires
        0 <= i <= pins.len(),
    ensures
        i <= pin_index(pins, id, i) <= pins.len(),
        pin_index(pins, id, i) < pins.len() ==> pins[pin_index(pins, id, i)].id@ == id,
    decreases pins.len() - i,
{
    if i < pins.len() && pins[i].id@ != id {
        lemma_pin_index(pins, id, i + 1);
    }
}

/// Switching a plugin of a session changes nothing but that one pin of it is on or
/// off. What an extension kept is dropped only where it really is switched.
pub proof fn law_switching_changes_one_pin(
    session_id: EntityId,
    pins: Seq<PluginPin>,
    id: String,
    enabled: bool,
    extension_required: bool,
    listing: Seq<InstalledPlugin>,
    action: EngineAction,
)
    requires
        is_switched(
            Ok(action),
            session_id,
            pins,
            id,
            enabled,
            extension_required,
            listing,
        ),
    ensures
        action matches EngineAction::BindPlugins { session_id: bound, plugins, reset, warning }
            && bound == session_id && warning is None && plugins@.len() == pins.len() && exists|
            at: int,
        |
            {
                &&& 0 <= at < pins.len()
                &&& (#[trigger] pins[at]).id@ == id@
                &&& plugins@[at] == (PluginPin { enabled, ..pins[at] })
                &&& forall|k: int| 0 <= k < pins.len() && k != at ==> plugins@[k] == #[trigger] pins[k]
                &&& reset is Some ==> pins[at].enabled != enabled && reset->0@ == id@
                &&& pins[at].enabled == enabled ==> reset is None
            },
{
    lemma_pin_index(pins, id@, 0);
    let at = pin_index(pins, id@, 0);
    assert(pins[at].id@ == id@);
}

/// A session that is bound to a plugin is bound to one that is installed just so and
/// asks for all that is granted. It is on from then on, with the settings given, and
/// all other plugins stay as they were.
pub proof fn law_bound_plugins_are_installed(
    action: EngineAction,
    facts: CommandFacts,
    session_id: EntityId,
    id: String,
    version: String,
    digest: ContentHash,
    capabilities: Seq<PluginCapability>,
    settings: Json,
    egress: Vec<EgressAllowance>,
)
    requires
        is_adopting(
            Ok(action),
            facts,
            session_id,
            id,
            version,
            digest,
            capabilities,
            settings,
            egress,
        ),
    ensures
        exists|k: int|
            {
                &&& 0 <= k < facts.listing@.len()
                &&& (#[trigger] facts.listing@[k]).manifest.id@ == id@
                &&& facts.listing@[k].manifest.version@ == version@
                &&& facts.listing@[k].manifest.component_sha256@ == digest@
                &&& forall|c: int|
                    0 <= c < capabilities.len()
                        ==> facts.listing@[k].manifest.requested_capabilities@.contains(
                        #[trigger] capabilities[c],
                    )
            },
        action matches EngineAction::BindPlugins { session_id: bound, plugins, .. } && {
            &&& bound == session_id
            &&& facts.configuration matches Some(record)
            &&& forall|i: int|
                0 <= i < record.configuration.plugins@.len() && (
                #[trigger] record.configuration.plugins@[i]).id@ != plugins@.last().id@
                    ==> plugins@.contains(record.configuration.plugins@[i])
            &&& forall|i: int|
                0 <= i < plugins@.len() - 1 ==> (#[trigger] plugins@[i]).id@ != plugins@.last().id@
        },
{
    law_packages_are_found_as_listed(facts.listing@, id@, version@, digest@);
    let plugin = package_of(facts.listing@, id@, version@, digest@)->0;
    let k = choose|k: int|
        {
            &&& 0 <= k < facts.listing@.len()
            &&& #[trigger] facts.listing@[k] == plugin
            &&& plugin.manifest.id@ == id@
            &&& plugin.manifest.version@ == version@
            &&& plugin.manifest.component_sha256@ == digest@
        };
    assert(facts.listing@[k].manifest.id@ == id@);
    match action {
        EngineAction::BindPlugins { plugins, .. } => {
            law_adoption_keeps_one_pin(
                facts.configuration->0.configuration.plugins@,
                plugins@.last(),
            );
        },
        _ => {},
    }
}

} // verus!

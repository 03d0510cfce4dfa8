//! How plugins are bound to sessions and let go again.
use vstd::prelude::*;

use crate::artifact::kind::ArtifactError;
use crate::artifact_codec::{ArtifactCodecError, ArtifactCodecProvenance};
use crate::config::{Config, ConfigError, GlobalExtensionPin, is_first_pinned};
use crate::egress::EgressAllowance;
use crate::engine::codec::{codec_grant, is_codec_contract};
use crate::identity::{ContentHash, EntityId};
use crate::json::Json;
use crate::plugin::{
    ArtifactInspectorRegistration, copy_capabilities, has_capability, InstalledPlugin, is_version,
    is_within, PluginCapability, PluginError, PluginManifest, PluginRegistry, PluginRuntime,
    version_parses, within,
};
use crate::session::{PluginPin, SessionError};
use crate::text::{self, contains_text, views};
use crate::turn::TurnError;

verus! {

/// Why the engine refuses.
#[derive(Clone, Debug)]
pub enum EngineError {
    Storage(String),
    Session(SessionError),
    Turn(TurnError),
    Artifact(ArtifactError),
    ArtifactCodec(ArtifactCodecError),
    Plugin(PluginError),
    Config(ConfigError),
    PluginInUse(String),
    PluginNotFound { id: String, version: String, digest: ContentHash },
    InteractionUnavailable(String),
    PluginGrantExceeded,
    PluginNotPinned(String),
    ArtifactInspectorNotRegistered(String),
    ExtensionRuntimeRequired(String),
    PromptPresetNotPinned(EntityId),
    PluginUpgradeGrantExceeded,
    SelectedSessionConfigurationMissing,
    BranchSessionMismatch,
    AttemptSessionMismatch,
    PromptSegmentNotFound { attempt_id: EntityId, selector: String },
}

/// An extension that new sessions are bound to, by its identity.
#[derive(Clone, Debug)]
pub struct GlobalExtensionSelection {
    pub id: String,
    pub pin: GlobalExtensionPin,
}

/// Something to know that does not stop a session.
#[derive(Clone, Debug)]
pub struct CompatibilityWarning {
    pub code: String,
    pub profile_id: String,
    pub non_blocking: bool,
    pub source_revision: ContentHash,
    pub affected_identifiers: Vec<String>,
    pub count: usize,
    pub detail: String,
}

/// The package of an identity, version and digest, or that there is none.
pub fn installed_plugin<'a>(
    registry: &PluginRegistry,
    listing: &'a Vec<InstalledPlugin>,
    id: &String,
    version: &String,
    digest: &ContentHash,
) -> (r: Result<&'a InstalledPlugin, EngineError>)
    ensures
        match r {
            Ok(plugin) => is_first_pinned(Some(*plugin), listing@, id@, version@, digest@),
            Err(e) => is_first_pinned(None, listing@, id@, version@, digest@) && e
                == (EngineError::PluginNotFound { id: *id, version: *version, digest: *digest }),
        },
{
    match registry.find_pinned(listing, id.as_str(), version.as_str(), digest) {
        Some(plugin) => Ok(plugin),
        None => Err(
            EngineError::PluginNotFound {
                id: id.clone(),
                version: version.clone(),
                digest: *digest,
            },
        ),
    }
}

/// Why a plugin is not bound as an extension, if it is not.
pub open spec fn extension_refusal(
    manifest: PluginManifest,
    tier: Seq<PluginCapability>,
    id: String,
) -> Option<EngineError> {
    if manifest.runtime != PluginRuntime::StBridge {
        Some(EngineError::ExtensionRuntimeRequired(id))
    } else if !within(tier, manifest.requested_capabilities@) {
        Some(EngineError::PluginGrantExceeded)
    } else {
        None
    }
}

fn check_extension(manifest: &PluginManifest, tier: &Vec<PluginCapability>, id: &String) -> (r: Result<
    (),
    EngineError,
>)
    ensures
        match r {
            Ok(()) => extension_refusal(*manifest, tier@, *id) is None,
            Err(e) => extension_refusal(*manifest, tier@, *id) == Some(e),
        },
{
    if manifest.runtime != PluginRuntime::StBridge {
        return Err(EngineError::ExtensionRuntimeRequired(id.clone()));
    }
    if !is_within(tier, &manifest.requested_capabilities) {
        return Err(EngineError::PluginGrantExceeded);
    }
    Ok(())
}

/// The extension that new sessions are bound to.
pub open spec fn is_selection(
    selection: GlobalExtensionSelection,
    manifest: PluginManifest,
    settings: Json,
    egress: Vec<EgressAllowance>,
) -> bool {
    &&& selection.id == manifest.id
    &&& selection.pin.version == manifest.version
    &&& selection.pin.digest == manifest.component_sha256
    &&& selection.pin.settings == settings
    &&& selection.pin.egress_allow_list == egress
}

/// Binds new sessions to an extension.
pub fn enable_global_extension(
    manifest: &PluginManifest,
    tier: &Vec<PluginCapability>,
    id: &String,
    settings: Json,
    egress: Vec<EgressAllowance>,
) -> (r: Result<GlobalExtensionSelection, EngineError>)
    ensures
        match extension_refusal(*manifest, tier@, *id) {
            Some(e) => r == Err::<GlobalExtensionSelection, EngineError>(e),
            None => r matches Ok(selection) && is_selection(
                selection,
                *manifest,
                settings,
                egress,
            ),
        },
{
    match check_extension(manifest, tier, id) {
        Ok(()) => {},
        Err(e) => return Err(e),
    }
    Ok(
        GlobalExtensionSelection {
            id: manifest.id.clone(),
            pin: GlobalExtensionPin {
                version: manifest.version.clone(),
                digest: manifest.component_sha256,
                settings,
                egress_allow_list: egress,
            },
        },
    )
}

/// What becomes of a plugin that is to inspect artifacts. One that is to be a
/// codec has to be one and nothing else.
pub open spec fn is_registration(
    r: Result<ArtifactInspectorRegistration, EngineError>,
    manifest: PluginManifest,
    id: String,
    capabilities: Vec<PluginCapability>,
) -> bool {
    if !within(capabilities@, manifest.requested_capabilities@) {
        r == Err::<ArtifactInspectorRegistration, EngineError>(EngineError::PluginGrantExceeded)
    } else if capabilities@.contains(PluginCapability::ArtifactCodec) && !is_codec_contract(
        manifest,
        capabilities@,
    ) {
        r == Err::<ArtifactInspectorRegistration, EngineError>(
            EngineError::ArtifactCodec(ArtifactCodecError::InvalidPluginContract(manifest.id)),
        )
    } else {
        r matches Ok(registration) && registration.id == id && registration.version
            == manifest.version && registration.component_sha256 == manifest.component_sha256
            && registration.capabilities == capabilities
    }
}

/// Registers a plugin to inspect artifacts. One that is to be a codec has to be
/// one and nothing else.
pub fn register_artifact_inspector(
    manifest: &PluginManifest,
    id: String,
    capabilities: Vec<PluginCapability>,
) -> (r: Result<ArtifactInspectorRegistration, EngineError>)
    ensures
        is_registration(r, *manifest, id, capabilities),
{
    if !is_within(&capabilities, &manifest.requested_capabilities) {
        return Err(EngineError::PluginGrantExceeded);
    }
    if has_capability(&capabilities, PluginCapability::ArtifactCodec) {
        match codec_grant(manifest, &capabilities) {
            Ok(_) => {},
            Err(e) => return Err(EngineError::ArtifactCodec(e)),
        }
    }
    Ok(
        ArtifactInspectorRegistration {
            id,
            version: manifest.version.clone(),
            component_sha256: manifest.component_sha256,
            capabilities,
        },
    )
}

/// The pins without those of an identity.
pub open spec fn without_pin(pins: Seq<PluginPin>, id: Seq<char>) -> Seq<PluginPin>
    decreases pins.len(),
{
    if pins.len() == 0 {
        pins
    } else if pins.last().id@ == id {
        without_pin(pins.drop_last(), id)
    } else {
        without_pin(pins.drop_last(), id).push(pins.last())
    }
}

/// The first pin of an identity from place `i` on, or `pins.len()`.
pub open spec fn pin_index(pins: Seq<PluginPin>, id: Seq<char>, i: int) -> int
    decreases pins.len() - i,
{
    if i < 0 || i >= pins.len() {
        pins.len() as int
    } else if pins[i].id@ == id {
        i
    } else {
        pin_index(pins, id, i + 1)
    }
}

/// Where the first pin of an identity stands.
pub fn find_pin_index(pins: &Vec<PluginPin>, id: &str) -> (at: usize)
    ensures
        at == pin_index(pins@, id@, 0),
        at <= pins@.len(),
        at < pins@.len() ==> pins@[at as int].id@ == id@,
{
    let mut i: usize = 0;
    while i < pins.len()
        invariant
            i <= pins@.len(),
            pin_index(pins@, id@, 0) == pin_index(pins@, id@, i as int),
        decreases pins@.len() - i,
    {
        if text::same(pins[i].id.as_str(), id) {
            return i;
        }
        i = i + 1;
    }
    i
}

fn drop_pin(pins: Vec<PluginPin>, id: &str) -> (kept: Vec<PluginPin>)
    ensures
        kept@ == without_pin(pins@, id@),
{
    let ghost all = pins@;
    let count: usize = pins.len();
    let mut rest = pins;
    let mut kept: Vec<PluginPin> = Vec::new();
    let mut i: usize = 0;
    proof {
        assert(all.skip(0) =~= all);
        assert(kept@ =~= without_pin(all.take(0), id@));
    }
    while i < count
        invariant
            i <= count,
            count == all.len(),
            rest@ == all.skip(i as int),
            kept@ == without_pin(all.take(i as int), id@),
        decreases count - i,
    {
        let pin = rest.remove(0);
        proof {
            assert(rest@ =~= all.skip(i + 1));
            assert(pin == all[i as int]);
            assert(all.take(i + 1).drop_last() =~= all.take(i as int));
            assert(all.take(i + 1).last() == pin);
        }
        if !text::same(pin.id.as_str(), id) {
            kept.push(pin);
        }
        i = i + 1;
    }
    proof {
        assert(all.take(count as int) =~= all);
    }
    kept
}

/// The pin under which a session is bound to a plugin.
pub open spec fn is_adopted_pin(
    pin: PluginPin,
    manifest: PluginManifest,
    id: String,
    capabilities: Seq<PluginCapability>,
    settings: Json,
    egress: Vec<EgressAllowance>,
) -> bool {
    &&& pin.id == id
    &&& pin.version == manifest.version
    &&& pin.component_hash == manifest.component_sha256
    &&& pin.capabilities@ == capabilities
    &&& pin.settings == settings
    &&& pin.egress_allow_list == egress
    &&& pin.enabled
}

/// The pin under which a session is bound to a plugin that is granted no more
/// than it asks for.
pub fn plugin_pin(
    manifest: &PluginManifest,
    id: String,
    capabilities: Vec<PluginCapability>,
    settings: Json,
    egress: Vec<EgressAllowance>,
) -> (r: Result<PluginPin, EngineError>)
    ensures
        if within(capabilities@, manifest.requested_capabilities@) {
            r matches Ok(pin) && is_adopted_pin(
                pin,
                *manifest,
                id,
                capabilities@,
                settings,
                egress,
            )
        } else {
            r == Err::<PluginPin, EngineError>(EngineError::PluginGrantExceeded)
        },
{
    if !is_within(&capabilities, &manifest.requested_capabilities) {
        return Err(EngineError::PluginGrantExceeded);
    }
    Ok(
        PluginPin {
            id,
            version: manifest.version.clone(),
            component_hash: manifest.component_sha256,
            capabilities,
            settings,
            egress_allow_list: egress,
            enabled: true,
        },
    )
}

/// The pin under which a session is bound to an extension.
pub fn extension_pin(
    manifest: &PluginManifest,
    tier: &Vec<PluginCapability>,
    id: String,
    settings: Json,
    egress: Vec<EgressAllowance>,
) -> (r: Result<PluginPin, EngineError>)
    ensures
        match extension_refusal(*manifest, tier@, id) {
            Some(e) => r == Err::<PluginPin, EngineError>(e),
            None => r matches Ok(pin) && is_adopted_pin(
                pin,
                *manifest,
                id,
                tier@,
                settings,
                egress,
            ),
        },
{
    match check_extension(manifest, tier, &id) {
        Ok(()) => {},
        Err(e) => return Err(e),
    }
    plugin_pin(manifest, id, copy_capabilities(tier), settings, egress)
}

/// Binds a session to a plugin, in place of any that it was bound to under the
/// same identity.
pub fn adopt_plugin(pins: Vec<PluginPin>, pin: PluginPin) -> (adopted: Vec<PluginPin>)
    ensures
        adopted@ == without_pin(pins@, pin.id@).push(pin),
{
    let mut adopted = drop_pin(pins, pin.id.as_str());
    adopted.push(pin);
    adopted
}

/// What is said of an extension that a session is bound to after it began.
pub open spec fn adoption_detail(id: Seq<char>) -> Seq<char> {
    "Extension '"@ + id
        + "' begins lifecycle observation at Session Configuration Revision adoption; prior lifecycle events are not re-emitted"@
}

/// A session has had turns.
pub open spec fn has_begun(events: Seq<String>) -> bool {
    views(events).contains("turn.created"@)
}

/// The warning about an extension that a session is bound to after it began.
pub open spec fn is_adoption_warning(
    warning: CompatibilityWarning,
    profile: Seq<char>,
    pin: PluginPin,
) -> bool {
    &&& warning.code@ == "extension-adopted-mid-session"@
    &&& warning.profile_id@ == profile
    &&& warning.non_blocking
    &&& warning.source_revision == pin.component_hash
    &&& warning.affected_identifiers@ == seq![pin.id]
    &&& warning.count == 1
    &&& warning.detail@ == adoption_detail(pin.id@)
}

/// Binds a session to an extension. Where the session had turns without it, a
/// warning says so, and what the extension kept of the session is dropped.
pub fn adopt_extension(pins: Vec<PluginPin>, pin: PluginPin, profile: &str, events: &Vec<String>) -> (r: (
    Vec<PluginPin>,
    Option<CompatibilityWarning>,
))
    ensures
        r.0@ == without_pin(pins@, pin.id@).push(pin),
        ({
            let pinned = pin_index(pins@, pin.id@, 0) < pins@.len();
            match r.1 {
                Some(warning) => !pinned && has_begun(events@) && is_adoption_warning(
                    warning,
                    profile@,
                    pin,
                ),
                None => pinned || !has_begun(events@),
            }
        }),
{
    let pinned = find_pin_index(&pins, pin.id.as_str()) < pins.len();
    let warning: Option<CompatibilityWarning> = if !pinned && contains_text(
        events,
        "turn.created",
    ) {
        let mut detail = "Extension '".to_owned();
        detail.push_str(pin.id.as_str());
        detail.push_str(
            "' begins lifecycle observation at Session Configuration Revision adoption; prior lifecycle events are not re-emitted",
        );
        let mut affected: Vec<String> = Vec::new();
        affected.push(pin.id.clone());
        proof {
            assert(affected@ =~= seq![pin.id]);
        }
        Some(
            CompatibilityWarning {
                code: "extension-adopted-mid-session".to_owned(),
                profile_id: profile.to_owned(),
                non_blocking: true,
                source_revision: pin.component_hash,
                affected_identifiers: affected,
                count: 1,
                detail,
            },
        )
    } else {
        None
    };
    (adopt_plugin(pins, pin), warning)
}

/// What switching a plugin of a session on or off comes to: whether what it kept
/// of the session is dropped, or why it is refused. `installed` is the package
/// of its pin.
pub open spec fn switching(
    pins: Seq<PluginPin>,
    id: String,
    enabled: bool,
    extension_required: bool,
    installed: Option<InstalledPlugin>,
) -> Result<bool, EngineError> {
    let at = pin_index(pins, id@, 0);
    if at >= pins.len() {
        Err(EngineError::PluginNotPinned(id))
    } else {
        let pin = pins[at];
        let looked_up = enabled || extension_required;
        if looked_up && !version_parses(pin.version@) {
            Err(EngineError::Session(SessionError::InvalidPluginVersion(pin.version)))
        } else if looked_up && installed is None {
            Err(
                EngineError::PluginNotFound {
                    id,
                    version: pin.version,
                    digest: pin.component_hash,
                },
            )
        } else if extension_required && installed->0.manifest.runtime != PluginRuntime::StBridge {
            Err(EngineError::ExtensionRuntimeRequired(id))
        } else {
            Ok(
                pin.enabled != enabled && looked_up && installed->0.manifest.runtime
                    == PluginRuntime::StBridge,
            )
        }
    }
}

/// Switches a plugin of a session on or off. Where what it kept of the session
/// is to be dropped, the result says so.
pub fn set_plugin_enabled(
    pins: &mut Vec<PluginPin>,
    id: &String,
    enabled: bool,
    extension_required: bool,
    installed: Option<&InstalledPlugin>,
) -> (r: Result<bool, EngineError>)
    ensures
        r == switching(
            old(pins)@,
            *id,
            enabled,
            extension_required,
            match installed {
                Some(plugin) => Some(*plugin),
                None => None,
            },
        ),
        match r {
            Ok(_) => {
                let at = pin_index(old(pins)@, id@, 0);
                final(pins)@ == old(pins)@.update(at, PluginPin { enabled, ..old(pins)@[at] })
            },
            Err(_) => final(pins)@ == old(pins)@,
        },
{
    let at: usize = find_pin_index(pins, id.as_str());
    if at >= pins.len() {
        return Err(EngineError::PluginNotPinned(id.clone()));
    }
    let looked_up = enabled || extension_required;
    if looked_up && !is_version(pins[at].version.as_str()) {
        return Err(
            EngineError::Session(SessionError::InvalidPluginVersion(pins[at].version.clone())),
        );
    }
    let mut bridged = false;
    if looked_up {
        match installed {
            Some(plugin) => {
                bridged = plugin.manifest.runtime == PluginRuntime::StBridge;
            },
            None => {
                return Err(
                    EngineError::PluginNotFound {
                        id: id.clone(),
                        version: pins[at].version.clone(),
                        digest: pins[at].component_hash,
                    },
                );
            },
        }
    }
    if extension_required && !bridged {
        return Err(EngineError::ExtensionRuntimeRequired(id.clone()));
    }
    let was_enabled = pins[at].enabled;
    pins[at].enabled = enabled;
    proof {
        assert(pins@ =~= old(pins)@.update(
            at as int,
            PluginPin { enabled, ..old(pins)@[at as int] },
        ));
    }
    Ok(was_enabled != enabled && bridged)
}

/// Brings the pin of a plugin to another package, where that asks for all that
/// the plugin was granted.
pub fn upgrade_plugin(pins: &mut Vec<PluginPin>, id: &String, manifest: &PluginManifest) -> (r: Result<
    (),
    EngineError,
>)
    ensures
        ({
            let at = pin_index(old(pins)@, id@, 0);
            if at >= old(pins)@.len() {
                r == Err::<(), EngineError>(EngineError::PluginNotPinned(*id)) && final(pins)@
                    == old(pins)@
            } else if !within(
                old(pins)@[at].capabilities@,
                manifest.requested_capabilities@,
            ) {
                r == Err::<(), EngineError>(EngineError::PluginUpgradeGrantExceeded)
                    && final(pins)@ == old(pins)@
            } else {
                r is Ok && final(pins)@ == old(pins)@.update(
                    at,
                    PluginPin {
                        version: manifest.version,
                        component_hash: manifest.component_sha256,
                        ..old(pins)@[at]
                    },
                )
            }
        }),
{
    let at: usize = find_pin_index(pins, id.as_str());
    if at >= pins.len() {
        return Err(EngineError::PluginNotPinned(id.clone()));
    }
    if !is_within(&pins[at].capabilities, &manifest.requested_capabilities) {
        return Err(EngineError::PluginUpgradeGrantExceeded);
    }
    pins[at].version = manifest.version.clone();
    pins[at].component_hash = manifest.component_sha256;
    proof {
        assert(pins@ =~= old(pins)@.update(
            at as int,
            PluginPin {
                version: manifest.version,
                component_hash: manifest.component_sha256,
                ..old(pins)@[at as int]
            },
        ));
    }
    Ok(())
}

/// Those of the first `count` pins whose plugin is not among others.
pub open spec fn pins_beside(pins: Seq<PluginPin>, others: Seq<PluginPin>, count: int) -> Seq<
    PluginPin,
>
    decreases count,
{
    if count <= 0 {
        Seq::empty()
    } else if pin_index(others, pins[count - 1].id@, 0) < others.len() {
        pins_beside(pins, others, count - 1)
    } else {
        pins_beside(pins, others, count - 1).push(pins[count - 1])
    }
}

/// The pins that a new session starts with: the enabled extensions that it does
/// not name itself, and then those it names.
pub fn starting_pins(enabled: Vec<PluginPin>, named: Vec<PluginPin>) -> (pins: Vec<PluginPin>)
    ensures
        pins@ == pins_beside(enabled@, named@, enabled@.len() as int) + named@,
{
    let ghost all = enabled@;
    let count: usize = enabled.len();
    let mut rest = enabled;
    let mut pins: Vec<PluginPin> = Vec::new();
    let mut i: usize = 0;
    proof {
        assert(all.skip(0) =~= all);
        assert(pins@ =~= pins_beside(all, named@, 0));
    }
    while i < count
        invariant
            i <= count,
            count == all.len(),
            rest@ == all.skip(i as int),
            pins@ == pins_beside(all, named@, i as int),
        decreases count - i,
    {
        let pin = rest.remove(0);
        proof {
            assert(rest@ =~= all.skip(i + 1));
            assert(pin == all[i as int]);
        }
        if find_pin_index(&named, pin.id.as_str()) >= named.len() {
            pins.push(pin);
        }
        i = i + 1;
    }
    let mut more = named;
    pins.append(&mut more);
    pins
}

/// Checks that a plugin may be removed.
pub fn check_removable(id: String, pinned: bool, codec_used: bool) -> (r: Result<String, EngineError>)
    ensures
        r == if pinned || codec_used {
            Err::<String, EngineError>(EngineError::PluginInUse(id))
        } else {
            Ok(id)
        },
{
    if pinned || codec_used {
        Err(EngineError::PluginInUse(id))
    } else {
        Ok(id)
    }
}

/// Some artifact was imported by a codec.
pub open spec fn uses_codec(provenances: Seq<ArtifactCodecProvenance>, id: Seq<char>) -> bool {
    exists|i: int| 0 <= i < provenances.len() && (#[trigger] provenances[i]).plugin_id@ == id
}

/// Whether some artifact was imported by a codec.
pub fn artifact_codec_plugin_in_use(provenances: &Vec<ArtifactCodecProvenance>, id: &str) -> (r: bool)
    ensures
        r == uses_codec(provenances@, id@),
{
    let mut i: usize = 0;
    while i < provenances.len()
        invariant
            i <= provenances@.len(),
            forall|j: int| 0 <= j < i ==> (#[trigger] provenances@[j]).plugin_id@ != id@,
        decreases provenances@.len() - i,
    {
        if text::same(provenances[i].plugin_id.as_str(), id) {
            return true;
        }
        i = i + 1;
    }
    false
}

/// The package is registered to inspect artifacts.
pub open spec fn is_registered(
    registrations: Seq<ArtifactInspectorRegistration>,
    manifest: PluginManifest,
) -> bool {
    exists|i: int|
        0 <= i < registrations.len() && (#[trigger] registrations[i]).id@ == manifest.id@
            && registrations[i].version@ == manifest.version@
            && registrations[i].component_sha256@ == manifest.component_sha256@
}

/// Whether a package is registered to inspect artifacts.
pub fn inspection_enabled(
    registrations: &Vec<ArtifactInspectorRegistration>,
    manifest: &PluginManifest,
) -> (r: bool)
    ensures
        r == is_registered(registrations@, *manifest),
{
    let mut i: usize = 0;
    while i < registrations.len()
        invariant
            i <= registrations@.len(),
            forall|j: int|
                0 <= j < i ==> !((#[trigger] registrations@[j]).id@ == manifest.id@
                    && registrations@[j].version@ == manifest.version@
                    && registrations@[j].component_sha256@ == manifest.component_sha256@),
        decreases registrations@.len() - i,
    {
        let registration = &registrations[i];
        if text::same(registration.id.as_str(), manifest.id.as_str()) && text::same(
            registration.version.as_str(),
            manifest.version.as_str(),
        ) && registration.component_sha256.same(&manifest.component_sha256) {
            return true;
        }
        i = i + 1;
    }
    false
}

/// The packages of an identity, or all of them, told whether they are registered
/// to inspect artifacts.
pub open spec fn shown_packages(
    listing: Seq<InstalledPlugin>,
    registrations: Seq<ArtifactInspectorRegistration>,
    id: Option<String>,
    count: int,
) -> Seq<InstalledPlugin>
    decreases count,
{
    if count <= 0 {
        Seq::empty()
    } else {
        let head = shown_packages(listing, registrations, id, count - 1);
        let plugin = listing[count - 1];
        if id is None || plugin.manifest.id@ == id->0@ {
            head.push(
                InstalledPlugin {
                    inspection_enabled: is_registered(registrations, plugin.manifest),
                    ..plugin
                },
            )
        } else {
            head
        }
    }
}

/// The packages of an identity, or all of them, told whether they are registered
/// to inspect artifacts.
pub fn show_packages(
    listing: Vec<InstalledPlugin>,
    registrations: &Vec<ArtifactInspectorRegistration>,
    id: &Option<String>,
) -> (shown: Vec<InstalledPlugin>)
    ensures
        shown@ == shown_packages(listing@, registrations@, *id, listing@.len() as int),
{
    let ghost all = listing@;
    let count: usize = listing.len();
    let mut rest = listing;
    let mut shown: Vec<InstalledPlugin> = Vec::new();
    let mut i: usize = 0;
    proof {
        assert(all.skip(0) =~= all);
        assert(shown@ =~= shown_packages(all, registrations@, *id, 0));
    }
    while i < count
        invariant
            i <= count,
            count == all.len(),
            rest@ == all.skip(i as int),
            shown@ == shown_packages(all, registrations@, *id, i as int),
        decreases count - i,
    {
        let mut plugin = rest.remove(0);
        proof {
            assert(rest@ =~= all.skip(i + 1));
            assert(plugin == all[i as int]);
        }
        let wanted = match id {
            Some(expected) => text::same(plugin.manifest.id.as_str(), expected.as_str()),
            None => true,
        };
        if wanted {
            plugin.inspection_enabled = inspection_enabled(registrations, &plugin.manifest);
            shown.push(plugin);
        }
        i = i + 1;
    }
    shown
}

/// Binding a session to a plugin leaves one pin of it, and the others as they
/// are.
pub proof fn law_adoption_keeps_one_pin(pins: Seq<PluginPin>, pin: PluginPin)
    ensures
        ({
            let adopted = without_pin(pins, pin.id@).push(pin);
            &&& adopted.last() == pin
            &&& forall|i: int|
                0 <= i < adopted.len() - 1 ==> (#[trigger] adopted[i]).id@ != pin.id@
                    && pins.contains(adopted[i])
            &&& forall|i: int|
                0 <= i < pins.len() && (#[trigger] pins[i]).id@ != pin.id@ ==> adopted.contains(
                    pins[i],
                )
        }),
{
    lemma_without_pin(pins, pin.id@);
    let kept = without_pin(pins, pin.id@);
    let adopted = kept.push(pin);
    assert forall|i: int| 0 <= i < pins.len() && (#[trigger] pins[i]).id@ != pin.id@ implies
        adopted.contains(pins[i]) by {
        let k = choose|k: int| 0 <= k < kept.len() && kept[k] == pins[i];
        assert(adopted[k] == pins[i]);
    }
    assert forall|i: int| 0 <= i < adopted.len() - 1 implies (#[trigger] adopted[i]).id@
        != pin.id@ && pins.contains(adopted[i]) by {
        assert(adopted[i] == kept[i]);
    }
}

proof fn lemma_without_pin(pins: Seq<PluginPin>, id: Seq<char>)
    ensures
        forall|i: int|
            0 <= i < without_pin(pins, id).len() ==> (#[trigger] without_pin(pins, id)[i]).id@
                != id && pins.contains(without_pin(pins, id)[i]),
        forall|i: int|
            0 <= i < pins.len() && (#[trigger] pins[i]).id@ != id ==> without_pin(
                pins,
                id,
            ).contains(pins[i]),
    decreases pins.len(),
{
    if pins.len() > 0 {
        let rest = pins.drop_last();
        lemma_without_pin(rest, id);
        let head = without_pin(rest, id);
        let all = without_pin(pins, id);
        assert forall|i: int| 0 <= i < all.len() implies (#[trigger] all[i]).id@ != id
            && pins.contains(all[i]) by {
            if i < head.len() {
                assert(all[i] == head[i]);
                let k = choose|k: int| 0 <= k < rest.len() && rest[k] == head[i];
                assert(pins[k] == all[i]);
            } else {
                assert(pins[pins.len() - 1] == all[i]);
            }
        }
        assert forall|i: int| 0 <= i < pins.len() && (#[trigger] pins[i]).id@ != id implies
            all.contains(pins[i]) by {
            if i < rest.len() {
                assert(rest[i] == pins[i]);
                let k = choose|k: int| 0 <= k < head.len() && head[k] == rest[i];
                assert(all[k] == pins[i]);
            } else {
                assert(all[all.len() - 1] == pins[i]);
            }
        }
    }
}

} // verus!

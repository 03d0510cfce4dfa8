//! What the engine shows of the extensions that a session is bound to.
use vstd::prelude::*;

use crate::artifact::kind::ArtifactKind;
use crate::artifact::revision::ArtifactRecord;
use crate::engine::commands::{find_package, package_of};
use crate::engine::plugins::EngineError;
use crate::engine::sessions::{choice_label, label_of};
use crate::identity::{ContentHash, EntityId};
use crate::interaction::declaration::InteractionDeclaration;
use crate::interaction::surface::{
    build_surface, InteractionSurface, is_surface, SurfaceBuild, well_formed,
};
use crate::json::{Json, ordered};
use crate::plugin::{InstalledPlugin, PluginError, PluginRegistry, PluginRuntime};
use crate::session::{PluginPin, SessionConfigurationRecord};

verus! {

/// What was read of the extension of a pin: what it declares, and the settings
/// that it keeps.
#[derive(Debug)]
pub struct PinReading {
    pub declaration: Result<Option<InteractionDeclaration>, PluginError>,
    pub persisted: Json,
}

/// What the extensions of a session are shown by, with a reading for each of the
/// session's pins.
#[derive(Debug)]
pub struct InteractionScene {
    pub session_id: EntityId,
    pub branch_id: Option<EntityId>,
    pub configuration: SessionConfigurationRecord,
    pub listing: Vec<InstalledPlugin>,
    pub readings: Vec<PinReading>,
    pub provider_profiles: Vec<String>,
    pub characters: Vec<(ContentHash, String)>,
    pub completed_attempt: bool,
    pub scripting: bool,
}

impl InteractionScene {
    /// The pins of the session.
    pub open spec fn pins(self) -> Seq<PluginPin> {
        self.configuration.configuration.plugins@
    }

    /// There is a reading for each pin, and what was read is well-formed.
    pub open spec fn wf(self) -> bool {
        &&& self.readings@.len() == self.pins().len()
        &&& forall|i: int|
            0 <= i < self.pins().len() ==> is_readable(
                #[trigger] self.readings@[i],
                self.pins()[i],
            )
    }
}

/// What was read of the extension of a pin is well-formed.
pub open spec fn is_readable(reading: PinReading, pin: PluginPin) -> bool {
    &&& reading.declaration matches Ok(Some(declaration)) ==> well_formed(declaration)
    &&& ordered(reading.persisted@)
    &&& ordered(pin.settings@)
}

/// What becomes of a pin: its package is not there, it declares nothing to show,
/// what it declares cannot be read, or it is shown.
pub enum PinFate {
    Missing,
    Skipped,
    Unreadable(PluginError),
    Shown,
}

/// What becomes of the pin at a place.
pub open spec fn pin_fate(scene: InteractionScene, i: int) -> PinFate {
    match pin_package(scene, i) {
        None => PinFate::Missing,
        Some(package) => if package.manifest.runtime != PluginRuntime::StBridge {
            PinFate::Skipped
        } else {
            match scene.readings@[i].declaration {
                Err(e) => PinFate::Unreadable(e),
                Ok(None) => PinFate::Skipped,
                Ok(Some(_)) => PinFate::Shown,
            }
        },
    }
}

/// The package of the pin at a place.
pub open spec fn pin_package(scene: InteractionScene, i: int) -> Option<InstalledPlugin> {
    let pin = scene.pins()[i];
    package_of(scene.listing@, pin.id@, pin.version@, pin.component_hash@)
}

/// What the surface of the pin at a place is made of.
pub open spec fn pin_input<'a>(scene: &'a InteractionScene, i: int) -> SurfaceBuild<'a> {
    SurfaceBuild {
        session_id: scene.session_id,
        branch_id: scene.branch_id,
        configuration_revision: &scene.configuration.revision_hash,
        installed: &pin_package(*scene, i)->0,
        declaration: &scene.readings@[i].declaration->Ok_0->0,
        pinned_settings: &scene.pins()[i].settings,
        persisted_settings: &scene.readings@[i].persisted,
        enabled: scene.pins()[i].enabled,
        capabilities: &scene.pins()[i].capabilities,
        provider_profiles: &scene.provider_profiles,
        characters: &scene.characters,
        completed_attempt: scene.completed_attempt,
        scripting: scene.scripting,
    }
}

/// The places of those of the first `count` pins that are shown.
pub open spec fn shown_places(scene: InteractionScene, count: int) -> Seq<int>
    decreases count,
{
    if count <= 0 {
        Seq::empty()
    } else if pin_fate(scene, count - 1) is Shown {
        shown_places(scene, count - 1).push(count - 1)
    } else {
        shown_places(scene, count - 1)
    }
}

/// The surface of the pin at a place.
pub open spec fn is_pin_surface(surface: InteractionSurface, scene: InteractionScene, i: int) -> bool {
    is_surface(Ok(surface), pin_input(&scene, i))
}

/// The surfaces of those of the first `count` pins that are shown, where none of
/// them is missing or cannot be read.
pub open spec fn are_surfaces(
    surfaces: Seq<InteractionSurface>,
    scene: InteractionScene,
    count: int,
) -> bool {
    let places = shown_places(scene, count);
    &&& forall|i: int|
        0 <= i < count ==> (#[trigger] pin_fate(scene, i) is Shown || pin_fate(scene, i) is Skipped)
    &&& surfaces.len() == places.len()
    &&& forall|k: int|
        0 <= k < places.len() ==> is_pin_surface(#[trigger] surfaces[k], scene, places[k])
}

/// Why the pin at a place cannot be shown.
pub open spec fn is_pin_refusal(e: EngineError, scene: InteractionScene, i: int) -> bool {
    let pin = scene.pins()[i];
    match pin_fate(scene, i) {
        PinFate::Missing => e == (EngineError::PluginNotFound {
            id: pin.id,
            version: pin.version,
            digest: pin.component_hash,
        }),
        PinFate::Skipped => false,
        PinFate::Unreadable(fault) => e == EngineError::Plugin(fault),
        PinFate::Shown => e matches EngineError::Plugin(fault) && is_surface(
            Err(fault),
            pin_input(&scene, i),
        ),
    }
}

/// The extensions of a session are shown, one surface for each that declares
/// one, or the first that cannot be shown is told with the reason.
pub open spec fn are_interactions(
    r: Result<Vec<InteractionSurface>, EngineError>,
    scene: InteractionScene,
) -> bool {
    match r {
        Ok(surfaces) => are_surfaces(surfaces@, scene, scene.pins().len() as int),
        Err(e) => exists|i: int| #[trigger]
            is_pin_refusal(e, scene, i) && stops_at(scene, i),
    }
}

/// Why the extensions of a session cannot be shown: for a reason of its own, or
/// because what the pin at a place declares cannot be read.
pub(crate) enum Stop {
    Refused(EngineError),
    Unreadable(usize),
}

/// The pins before a place are shown, and that at the place cannot be.
pub open spec fn stops_at(scene: InteractionScene, i: int) -> bool {
    0 <= i < scene.pins().len() && exists|before: Seq<InteractionSurface>|
        are_surfaces(before, scene, i)
}

pub(crate) fn show_pins(registry: &PluginRegistry, scene: &InteractionScene) -> (r: Result<
    Vec<InteractionSurface>,
    Stop,
>)
    requires
        scene.wf(),
    ensures
        match r {
            Ok(surfaces) => are_surfaces(surfaces@, *scene, scene.pins().len() as int),
            Err(Stop::Refused(e)) => exists|i: int| #[trigger]
                is_pin_refusal(e, *scene, i) && stops_at(*scene, i),
            Err(Stop::Unreadable(i)) => stops_at(*scene, i as int) && pin_fate(
                *scene,
                i as int,
            ) is Unreadable,
        },
{
    let pins = &scene.configuration.configuration.plugins;
    let mut surfaces: Vec<InteractionSurface> = Vec::new();
    let mut i: usize = 0;
    while i < pins.len()
        invariant
            i <= pins@.len(),
            pins@ == scene.pins(),
            scene.wf(),
            are_surfaces(surfaces@, *scene, i as int),
        decreases pins@.len() - i,
    {
        let pin = &pins[i];
        let ghost before = surfaces@;
        proof {
            assert(is_readable(scene.readings@[i as int], scene.pins()[i as int]));
            assert(stops_at(*scene, i as int));
        }
        let installed = match find_package(
            registry,
            &scene.listing,
            &pin.id,
            &pin.version,
            &pin.component_hash,
        ) {
            Ok(installed) => installed,
            Err(e) => {
                proof {
                    assert(is_pin_refusal(e, *scene, i as int));
                }
                return Err(Stop::Refused(e));
            },
        };
        if installed.manifest.runtime == PluginRuntime::StBridge {
            match &scene.readings[i].declaration {
                Err(_) => return Err(Stop::Unreadable(i)),
                Ok(None) => {},
                Ok(Some(declaration)) => {
                    match build_surface(
                        SurfaceBuild {
                            session_id: scene.session_id,
                            branch_id: scene.branch_id,
                            configuration_revision: &scene.configuration.revision_hash,
                            installed,
                            declaration,
                            pinned_settings: &pin.settings,
                            persisted_settings: &scene.readings[i].persisted,
                            enabled: pin.enabled,
                            capabilities: &pin.capabilities,
                            provider_profiles: &scene.provider_profiles,
                            characters: &scene.characters,
                            completed_attempt: scene.completed_attempt,
                            scripting: scene.scripting,
                        },
                    ) {
                        Ok(surface) => {
                            proof {
                                assert(is_pin_surface(surface, *scene, i as int));
                            }
                            surfaces.push(surface);
                        },
                        Err(fault) => {
                            let e = EngineError::Plugin(fault);
                            proof {
                                assert(is_pin_refusal(e, *scene, i as int));
                            }
                            return Err(Stop::Refused(e));
                        },
                    }
                },
            }
        }
        proof {
            let places = shown_places(*scene, i as int);
            let more = shown_places(*scene, i + 1);
            assert forall|k: int| 0 <= k < more.len() implies is_pin_surface(
                #[trigger] surfaces@[k],
                *scene,
                more[k],
            ) by {
                if k < places.len() {
                    assert(surfaces@[k] == before[k]);
                    assert(more[k] == places[k]);
                }
            }
        }
        i = i + 1;
    }
    Ok(surfaces)
}

/// Shows the extensions that a session is bound to.
pub fn extension_interactions(registry: &PluginRegistry, scene: InteractionScene) -> (r: Result<
    Vec<InteractionSurface>,
    EngineError,
>)
    requires
        scene.wf(),
    ensures
        are_interactions(r, scene),
{
    match show_pins(registry, &scene) {
        Ok(surfaces) => Ok(surfaces),
        Err(stop) => Err(refuse_scene(stop, scene)),
    }
}

pub(crate) fn refuse_scene(stop: Stop, scene: InteractionScene) -> (e: EngineError)
    requires
        scene.wf(),
        stop matches Stop::Refused(e) ==> exists|i: int| #[trigger]
            is_pin_refusal(e, scene, i) && stops_at(scene, i),
        stop matches Stop::Unreadable(i) ==> stops_at(scene, i as int) && pin_fate(
            scene,
            i as int,
        ) is Unreadable,
    ensures
        are_interactions(Err(e), scene),
{
    match stop {
        Stop::Refused(e) => e,
        Stop::Unreadable(at) => {
            let mut readings = scene.readings;
            match readings.remove(at).declaration {
                Err(fault) => {
                    let e = EngineError::Plugin(fault);
                    proof {
                        assert(is_pin_refusal(e, scene, at as int));
                    }
                    e
                },
                Ok(_) => vstd::pervasive::unreached(),
            }
        },
    }
}

/// The artifact is a character.
pub open spec fn is_character(kind: ArtifactKind) -> bool {
    kind is CharacterCardV1 || kind is CharacterCardV2 || kind is CharacterCardV3
}

/// The characters among the first `count` artifacts, each with the name that it
/// is offered under.
pub open spec fn offered_characters(
    artifacts: Seq<(ArtifactRecord, Json)>,
    count: int,
) -> Seq<(Seq<u8>, Seq<char>)>
    decreases count,
{
    if count <= 0 {
        Seq::empty()
    } else {
        let head = offered_characters(artifacts, count - 1);
        let (record, semantic) = artifacts[count - 1];
        if is_character(record.kind) {
            head.push((record.revision_hash@, label_of(semantic@, record.revision_hash@)))
        } else {
            head
        }
    }
}

/// The views of characters and their names.
pub open spec fn character_views(characters: Seq<(ContentHash, String)>) -> Seq<
    (Seq<u8>, Seq<char>),
> {
    Seq::new(characters.len(), |i: int| (characters[i].0@, characters[i].1@))
}

/// The characters among some artifacts, each with the name that it is offered
/// under.
pub fn offer_characters(artifacts: &Vec<(ArtifactRecord, Json)>) -> (characters: Vec<
    (ContentHash, String),
>)
    ensures
        character_views(characters@) == offered_characters(artifacts@, artifacts@.len() as int),
{
    let mut characters: Vec<(ContentHash, String)> = Vec::new();
    let mut i: usize = 0;
    proof {
        assert(character_views(characters@) =~= offered_characters(artifacts@, 0));
    }
    while i < artifacts.len()
        invariant
            i <= artifacts@.len(),
            character_views(characters@) == offered_characters(artifacts@, i as int),
        decreases artifacts@.len() - i,
    {
        let record = &artifacts[i].0;
        let ghost before = characters@;
        let wanted = match record.kind {
            ArtifactKind::CharacterCardV1 => true,
            ArtifactKind::CharacterCardV2 => true,
            ArtifactKind::CharacterCardV3 => true,
            _ => false,
        };
        if wanted {
            let label = choice_label(&artifacts[i].1, &record.revision_hash);
            let ghost shown = (record.revision_hash@, label@);
            characters.push((record.revision_hash, label));
            proof {
                assert(character_views(characters@) =~= character_views(before).push(shown));
            }
        }
        i = i + 1;
    }
    characters
}

} // verus!

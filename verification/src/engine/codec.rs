//! How codecs are asked about a file, and what is made of their answers.
use vstd::prelude::*;
use vstd::utf8::encode_utf8;

use crate::artifact_codec::{
    ARTIFACT_CODEC_INTERFACE_VERSION, ArtifactCodecBundle, ArtifactCodecCompatibility,
    ArtifactCodecError, ArtifactCodecInput, ArtifactCodecOutput, ArtifactCodecProvenance,
    base64_decoded, base64_encoded, decode_base64, encode_base64, format_char,
    MAX_CODEC_COMPATIBILITY_ITEMS, MAX_CODEC_COMPATIBILITY_MESSAGE_BYTES, MAX_CODEC_SOURCE_BYTES,
};
use crate::config::is_first_pinned;
use crate::engine::plugins::{EngineError, installed_plugin};
use crate::identity::ContentHash;
use crate::json::{Json, JsonView};
use crate::lore::groups::index_views;
use crate::plugin::{
    ArtifactInspectorRegistration, copy_capabilities, has_capability, InstalledPlugin,
    PluginCapability, PluginEffect, PluginError, PluginEvent, PluginGrant, PluginInput,
    PluginLimits, PluginManifest, PluginRegistry, PluginRuntime,
};
use crate::text::{self, contains_text, less, lex_less, to_chars, views};

verus! {

/// A character of a code.
pub open spec fn code_char(c: char) -> bool {
    format_char(c) || c == '.'
}

/// Something to know that is put well.
pub open spec fn is_compatibility(item: ArtifactCodecCompatibility) -> bool {
    &&& 0 < item.code@.len()
    &&& encode_utf8(item.code@).len() <= 64
    &&& forall|i: int| 0 <= i < item.code@.len() ==> code_char(#[trigger] item.code@[i])
    &&& 0 < item.message@.len()
    &&& encode_utf8(item.message@).len() <= MAX_CODEC_COMPATIBILITY_MESSAGE_BYTES
}

/// The code of the first of the items from place `i` on that is not put well.
pub open spec fn first_ill_put(items: Seq<ArtifactCodecCompatibility>, i: int) -> Option<String>
    decreases items.len() - i,
{
    if i < 0 || i >= items.len() {
        None
    } else if !is_compatibility(items[i]) {
        Some(items[i].code)
    } else {
        first_ill_put(items, i + 1)
    }
}

/// What is wrong with what a codec says there is to know, if anything is.
pub open spec fn compatibility_error(items: Seq<ArtifactCodecCompatibility>) -> Option<
    ArtifactCodecError,
> {
    if items.len() > MAX_CODEC_COMPATIBILITY_ITEMS {
        Some(
            ArtifactCodecError::CompatibilityCount {
                actual: items.len() as usize,
                limit: MAX_CODEC_COMPATIBILITY_ITEMS,
            },
        )
    } else {
        match first_ill_put(items, 0) {
            Some(code) => Some(ArtifactCodecError::InvalidCompatibility { code }),
            None => None,
        }
    }
}

fn check_code(code: &str) -> (r: bool)
    ensures
        r == forall|i: int| 0 <= i < code@.len() ==> code_char(#[trigger] code@[i]),
{
    let chars = to_chars(code);
    let mut i: usize = 0;
    while i < chars.len()
        invariant
            i <= chars@.len(),
            chars@ == code@,
            forall|j: int| 0 <= j < i ==> code_char(#[trigger] code@[j]),
        decreases chars@.len() - i,
    {
        let number: u32 = chars[i] as u32;
        if !((97 <= number && number <= 122) || (48 <= number && number <= 57) || chars[i] == '-'
            || chars[i] == '.') {
            proof {
                assert(!code_char(code@[i as int]));
            }
            return false;
        }
        i = i + 1;
    }
    true
}

/// Checks what a codec says there is to know.
pub fn validate_codec_compatibility(items: &Vec<ArtifactCodecCompatibility>) -> (r: Result<
    (),
    ArtifactCodecError,
>)
    ensures
        match r {
            Ok(()) => compatibility_error(items@) is None,
            Err(e) => compatibility_error(items@) == Some(e),
        },
{
    let count: usize = items.len();
    if count > MAX_CODEC_COMPATIBILITY_ITEMS {
        return Err(
            ArtifactCodecError::CompatibilityCount {
                actual: count,
                limit: MAX_CODEC_COMPATIBILITY_ITEMS,
            },
        );
    }
    let mut i: usize = 0;
    while i < items.len()
        invariant
            i <= items@.len() <= MAX_CODEC_COMPATIBILITY_ITEMS,
            first_ill_put(items@, 0) == first_ill_put(items@, i as int),
        decreases items@.len() - i,
    {
        let item = &items[i];
        if item.code.as_str().is_empty() || item.code.as_str().as_bytes().len() > 64 || !check_code(
            item.code.as_str(),
        ) || item.message.as_str().is_empty() || item.message.as_str().as_bytes().len()
            > MAX_CODEC_COMPATIBILITY_MESSAGE_BYTES {
            return Err(ArtifactCodecError::InvalidCompatibility { code: item.code.clone() });
        }
        i = i + 1;
    }
    Ok(())
}

/// Checks that a codec keeps to the interface.
pub fn validate_codec_interface(actual: &str) -> (r: Result<(), ArtifactCodecError>)
    ensures
        match r {
            Ok(()) => actual@ == ARTIFACT_CODEC_INTERFACE_VERSION@,
            Err(ArtifactCodecError::InterfaceVersion { expected, actual: a }) => actual@
                != ARTIFACT_CODEC_INTERFACE_VERSION@ && expected@
                == ARTIFACT_CODEC_INTERFACE_VERSION@ && a@ == actual@,
            Err(_) => false,
        },
{
    if text::same(actual, ARTIFACT_CODEC_INTERFACE_VERSION) {
        Ok(())
    } else {
        Err(
            ArtifactCodecError::InterfaceVersion {
                expected: ARTIFACT_CODEC_INTERFACE_VERSION.to_owned(),
                actual: actual.to_owned(),
            },
        )
    }
}

/// The name of the operation that an answer is about.
pub open spec fn operation_of(output: ArtifactCodecOutput) -> &'static str {
    match output {
        ArtifactCodecOutput::Detect { .. } => "detect",
        ArtifactCodecOutput::Decode { .. } => "decode",
        ArtifactCodecOutput::Encode { .. } => "encode",
    }
}

/// The error of an answer to another operation than the one asked for.
pub fn codec_operation_error(expected: &'static str, output: &ArtifactCodecOutput) -> (error:
    ArtifactCodecError)
    ensures
        error == (ArtifactCodecError::Operation { expected, actual: operation_of(*output) }),
{
    let actual: &'static str = match output {
        ArtifactCodecOutput::Detect { .. } => "detect",
        ArtifactCodecOutput::Decode { .. } => "decode",
        ArtifactCodecOutput::Encode { .. } => "encode",
    };
    ArtifactCodecError::Operation { expected, actual }
}

/// The capabilities of a codec, and no others.
pub open spec fn are_codec_capabilities(capabilities: Seq<PluginCapability>) -> bool {
    &&& capabilities.contains(PluginCapability::ArtifactCodec)
    &&& capabilities.contains(PluginCapability::InspectArtifact)
    &&& forall|i: int|
        0 <= i < capabilities.len() ==> #[trigger] capabilities[i]
            == PluginCapability::ArtifactCodec || capabilities[i]
            == PluginCapability::InspectArtifact
}

/// A plugin that is a codec and nothing else.
pub open spec fn is_codec_contract(
    manifest: PluginManifest,
    capabilities: Seq<PluginCapability>,
) -> bool {
    &&& manifest.runtime == PluginRuntime::Wasm
    &&& are_codec_capabilities(manifest.requested_capabilities@)
    &&& are_codec_capabilities(capabilities)
    &&& manifest.subscriptions@.len() > 0
    &&& forall|i: int|
        0 <= i < manifest.subscriptions@.len() ==> #[trigger] manifest.subscriptions@[i]
            == PluginEvent::InspectArtifact
    &&& manifest.prompt_slots@.len() == 0
    &&& manifest.commands@.len() == 0
    &&& manifest.macros@.len() == 0
    &&& manifest.settings_schema is None
    &&& manifest.artifact_codec matches Some(codec) && codec.formats@.len() > 0 && views(
        codec.interface_versions@,
    ).contains(ARTIFACT_CODEC_INTERFACE_VERSION@)
}

fn check_codec_capabilities(capabilities: &Vec<PluginCapability>) -> (r: bool)
    ensures
        r == are_codec_capabilities(capabilities@),
{
    if !has_capability(capabilities, PluginCapability::ArtifactCodec) || !has_capability(
        capabilities,
        PluginCapability::InspectArtifact,
    ) {
        return false;
    }
    let mut i: usize = 0;
    while i < capabilities.len()
        invariant
            i <= capabilities@.len(),
            capabilities@.contains(PluginCapability::ArtifactCodec),
            capabilities@.contains(PluginCapability::InspectArtifact),
            forall|j: int|
                0 <= j < i ==> #[trigger] capabilities@[j] == PluginCapability::ArtifactCodec
                    || capabilities@[j] == PluginCapability::InspectArtifact,
        decreases capabilities@.len() - i,
    {
        if capabilities[i] != PluginCapability::ArtifactCodec && capabilities[i]
            != PluginCapability::InspectArtifact {
            return false;
        }
        i = i + 1;
    }
    true
}

fn check_subscriptions(subscriptions: &Vec<PluginEvent>) -> (r: bool)
    ensures
        r == (subscriptions@.len() > 0 && forall|i: int|
            0 <= i < subscriptions@.len() ==> #[trigger] subscriptions@[i]
                == PluginEvent::InspectArtifact),
{
    let mut i: usize = 0;
    while i < subscriptions.len()
        invariant
            i <= subscriptions@.len(),
            forall|j: int|
                0 <= j < i ==> #[trigger] subscriptions@[j] == PluginEvent::InspectArtifact,
        decreases subscriptions@.len() - i,
    {
        if subscriptions[i] != PluginEvent::InspectArtifact {
            return false;
        }
        i = i + 1;
    }
    subscriptions.len() > 0
}

/// The grant under which a codec runs, or that the plugin is no codec or does
/// other things too.
pub open spec fn is_codec_grant(
    r: Result<PluginGrant, ArtifactCodecError>,
    manifest: PluginManifest,
    capabilities: Seq<PluginCapability>,
) -> bool {
    match r {
        Ok(grant) => {
            &&& is_codec_contract(manifest, capabilities)
            &&& grant.id == manifest.id
            &&& grant.version == manifest.version
            &&& grant.component_sha256 == manifest.component_sha256
            &&& grant.capabilities@ == capabilities
            &&& grant.settings@ == JsonView::Null
            &&& grant.egress_allow_list@.len() == 0
            &&& grant.enabled
        },
        Err(e) => !is_codec_contract(manifest, capabilities) && e
            == ArtifactCodecError::InvalidPluginContract(manifest.id),
    }
}

/// The grant under which a codec runs, where the plugin is a codec and nothing
/// else.
pub fn codec_grant(manifest: &PluginManifest, capabilities: &Vec<PluginCapability>) -> (r: Result<
    PluginGrant,
    ArtifactCodecError,
>)
    ensures
        is_codec_grant(r, *manifest, capabilities@),
{
    let declares = match &manifest.artifact_codec {
        Some(codec) => codec.formats.len() > 0 && contains_text(
            &codec.interface_versions,
            ARTIFACT_CODEC_INTERFACE_VERSION,
        ),
        None => false,
    };
    if manifest.runtime != PluginRuntime::Wasm || !check_codec_capabilities(
        &manifest.requested_capabilities,
    ) || !check_codec_capabilities(capabilities) || !check_subscriptions(&manifest.subscriptions)
        || manifest.prompt_slots.len() > 0 || manifest.commands.len() > 0 || manifest.macros.len()
        > 0 || manifest.settings_schema.is_some() || !declares {
        return Err(ArtifactCodecError::InvalidPluginContract(manifest.id.clone()));
    }
    Ok(
        PluginGrant {
            id: manifest.id.clone(),
            version: manifest.version.clone(),
            component_sha256: manifest.component_sha256,
            capabilities: copy_capabilities(capabilities),
            settings: Json::Null,
            egress_allow_list: Vec::new(),
            enabled: true,
        },
    )
}

/// The places of those of the first `count` effects that are outputs.
pub open spec fn output_places(effects: Seq<PluginEffect>, count: int) -> Seq<int>
    decreases count,
{
    if count <= 0 {
        Seq::empty()
    } else if effects[count - 1] is Output {
        output_places(effects, count - 1).push(count - 1)
    } else {
        output_places(effects, count - 1)
    }
}

fn collect_outputs(effects: &Vec<PluginEffect>) -> (places: Vec<usize>)
    ensures
        index_views(places@) == output_places(effects@, effects@.len() as int),
        forall|i: int|
            0 <= i < places@.len() ==> #[trigger] places@[i] < effects@.len()
                && effects@[places@[i] as int] is Output,
{
    let mut places: Vec<usize> = Vec::new();
    let mut i: usize = 0;
    proof {
        assert(index_views(places@) =~= Seq::<int>::empty());
    }
    while i < effects.len()
        invariant
            i <= effects@.len(),
            index_views(places@) == output_places(effects@, i as int),
            forall|j: int|
                0 <= j < places@.len() ==> #[trigger] places@[j] < effects@.len()
                    && effects@[places@[j] as int] is Output,
        decreases effects@.len() - i,
    {
        if let PluginEffect::Output { .. } = &effects[i] {
            let ghost before = places@;
            places.push(i);
            proof {
                assert(index_views(places@) =~= index_views(before).push(i as int));
            }
        }
        i = i + 1;
    }
    places
}

/// The only output of a run. Where there is another number of them, that number
/// is told, or two where `brief` says so and there are more.
pub open spec fn sole_output(effects: Seq<PluginEffect>, brief: bool) -> Result<JsonView, PluginError> {
    let places = output_places(effects, effects.len() as int);
    if places.len() == 1 {
        match effects[places[0]] {
            PluginEffect::Output { value } => Ok(value@),
            _ => Ok(JsonView::Null),
        }
    } else if brief && places.len() > 1 {
        Err(PluginError::ArtifactInspectionOutputCount(2))
    } else {
        Err(PluginError::ArtifactInspectionOutputCount(places.len() as usize))
    }
}

/// The only output of a run.
pub fn take_output(effects: &Vec<PluginEffect>, brief: bool) -> (r: Result<&Json, PluginError>)
    ensures
        match (r, sole_output(effects@, brief)) {
            (Ok(value), Ok(view)) => value@ == view,
            (Err(e), Err(expected)) => e == expected,
            _ => false,
        },
{
    let places = collect_outputs(effects);
    let count: usize = places.len();
    proof {
        assert(index_views(places@).len() == places@.len());
    }
    if count == 1 {
        proof {
            assert(index_views(places@)[0] == places@[0]);
        }
        if let PluginEffect::Output { value } = &effects[places[0]] {
            return Ok(value);
        }
    }
    if brief && count > 1 {
        return Err(PluginError::ArtifactInspectionOutputCount(2));
    }
    Err(PluginError::ArtifactInspectionOutputCount(count))
}

/// A file as codecs are given it, unless it is too large for them.
pub fn codec_source(source: &Vec<u8>) -> (encoded: Option<String>)
    ensures
        match encoded {
            Some(text) => source@.len() <= MAX_CODEC_SOURCE_BYTES && text@ == base64_encoded(
                source@,
            ),
            None => source@.len() > MAX_CODEC_SOURCE_BYTES,
        },
{
    if source.len() > MAX_CODEC_SOURCE_BYTES {
        return None;
    }
    Some(encode_base64(source))
}

/// What is wrong with the outline of an answer, if anything is: another
/// operation, another interface, or what it says there is to know.
pub open spec fn is_answer_error(
    error: ArtifactCodecError,
    output: ArtifactCodecOutput,
    operation: &'static str,
    interface_version: Seq<char>,
    items: Seq<ArtifactCodecCompatibility>,
) -> bool {
    if operation_of(output)@ != operation@ {
        error == ArtifactCodecError::Operation {
            expected: operation,
            actual: operation_of(output),
        }
    } else if interface_version != ARTIFACT_CODEC_INTERFACE_VERSION@ {
        error matches ArtifactCodecError::InterfaceVersion { expected, actual } && expected@
            == ARTIFACT_CODEC_INTERFACE_VERSION@ && actual@ == interface_version
    } else {
        compatibility_error(items) == Some(error)
    }
}

/// An answer that can be taken: of the interface, and with what there is to know
/// put well.
pub open spec fn is_sound_answer(
    interface_version: Seq<char>,
    items: Seq<ArtifactCodecCompatibility>,
) -> bool {
    interface_version == ARTIFACT_CODEC_INTERFACE_VERSION@ && compatibility_error(items) is None
}

/// What the answer of a codec says of whether it claims a file.
pub open spec fn is_detection(
    r: Result<Option<Vec<ArtifactCodecCompatibility>>, ArtifactCodecError>,
    output: ArtifactCodecOutput,
) -> bool {
    match output {
        ArtifactCodecOutput::Detect { interface_version, compatible, compatibility } => match r {
            Ok(claim) => {
                &&& is_sound_answer(interface_version@, compatibility@)
                &&& claim == if compatible {
                    Some(compatibility)
                } else {
                    None
                }
            },
            Err(e) => !is_sound_answer(interface_version@, compatibility@) && is_answer_error(
                e,
                output,
                "detect",
                interface_version@,
                compatibility@,
            ),
        },
        _ => r == Err::<Option<Vec<ArtifactCodecCompatibility>>, ArtifactCodecError>(
            ArtifactCodecError::Operation { expected: "detect", actual: operation_of(output) },
        ),
    }
}

/// Whether a codec claims a file, by its answer, and what there is to know.
pub fn accept_detection(output: ArtifactCodecOutput) -> (r: Result<
    Option<Vec<ArtifactCodecCompatibility>>,
    ArtifactCodecError,
>)
    ensures
        is_detection(r, output),
{
    match output {
        ArtifactCodecOutput::Detect { interface_version, compatible, compatibility } => {
            match validate_codec_interface(interface_version.as_str()) {
                Ok(()) => {},
                Err(e) => return Err(e),
            }
            match validate_codec_compatibility(&compatibility) {
                Ok(()) => {},
                Err(e) => return Err(e),
            }
            if compatible {
                Ok(Some(compatibility))
            } else {
                Ok(None)
            }
        },
        other => Err(codec_operation_error("detect", &other)),
    }
}

/// Where a text goes among others in ascending order: behind all at the end that
/// it is not less than.
pub open spec fn text_slot(texts: Seq<Seq<char>>, text: Seq<char>) -> int
    decreases texts.len(),
{
    if texts.len() > 0 && lex_less(text, texts.last()) {
        text_slot(texts.drop_last(), text)
    } else {
        texts.len() as int
    }
}

/// Texts in ascending order, each as often as it is there.
pub open spec fn sorted_texts(texts: Seq<Seq<char>>) -> Seq<Seq<char>>
    decreases texts.len(),
{
    if texts.len() == 0 {
        texts
    } else {
        let head = sorted_texts(texts.drop_last());
        head.insert(text_slot(head, texts.last()), texts.last())
    }
}

fn sort_texts(texts: &Vec<String>) -> (sorted: Vec<String>)
    ensures
        views(sorted@) == sorted_texts(views(texts@)),
{
    let ghost all = views(texts@);
    let mut sorted: Vec<String> = Vec::new();
    let mut i: usize = 0;
    proof {
        assert(views(sorted@) =~= sorted_texts(all.take(0)));
    }
    while i < texts.len()
        invariant
            i <= texts@.len(),
            all == views(texts@),
            views(sorted@) == sorted_texts(all.take(i as int)),
        decreases texts@.len() - i,
    {
        let ghost head = views(sorted@);
        proof {
            assert(all.take(i + 1).drop_last() =~= all.take(i as int));
            assert(all.take(i + 1).last() == texts@[i as int]@);
            assert(head.take(head.len() as int) =~= head);
        }
        let mut at: usize = sorted.len();
        while at > 0 && less(texts[i].as_str(), sorted[at - 1].as_str())
            invariant
                i < texts@.len(),
                at <= sorted@.len(),
                head == views(sorted@),
                text_slot(head, texts@[i as int]@) == text_slot(
                    head.take(at as int),
                    texts@[i as int]@,
                ),
            decreases at,
        {
            proof {
                assert(head.take(at as int).drop_last() =~= head.take(at - 1));
                assert(head.take(at as int).last() == sorted@[at - 1]@);
            }
            at = at - 1;
        }
        proof {
            assert(at > 0 ==> head.take(at as int).last() == sorted@[at - 1]@);
            assert(text_slot(head, texts@[i as int]@) == at);
        }
        let text = texts[i].clone();
        sorted.insert(at, text);
        proof {
            assert(views(sorted@) =~= head.insert(at as int, texts@[i as int]@));
        }
        i = i + 1;
    }
    proof {
        assert(all.take(texts@.len() as int) =~= all);
    }
    sorted
}

/// Whether a file is claimed by one codec, by the identities of those that claim
/// it.
pub fn settle_claims(ids: &Vec<String>) -> (r: Result<bool, ArtifactCodecError>)
    ensures
        match r {
            Ok(claimed) => ids@.len() <= 1 && claimed == (ids@.len() == 1),
            Err(ArtifactCodecError::AmbiguousFormatClaims(sorted)) => ids@.len() > 1 && views(
                sorted@,
            ) == sorted_texts(views(ids@)),
            Err(_) => false,
        },
{
    if ids.len() > 1 {
        return Err(ArtifactCodecError::AmbiguousFormatClaims(sort_texts(ids)));
    }
    Ok(ids.len() == 1)
}

/// The codec offers the format.
pub open spec fn offers(manifest: PluginManifest, format: Seq<char>) -> bool {
    manifest.artifact_codec matches Some(codec) && views(codec.formats@).contains(format)
}

/// The provenance of what a codec made of a file.
pub open spec fn is_provenance(
    provenance: ArtifactCodecProvenance,
    manifest: PluginManifest,
    interface_version: String,
    format: String,
    compatibility: Seq<ArtifactCodecCompatibility>,
) -> bool {
    &&& provenance.plugin_id == manifest.id
    &&& provenance.version == manifest.version
    &&& provenance.component_sha256 == manifest.component_sha256
    &&& provenance.interface_version == interface_version
    &&& provenance.format == format
    &&& provenance.compatibility@ == compatibility
    &&& provenance.supplementary_artifacts@.len() == 0
}

/// What the answer of a codec that claimed a file makes of it.
pub open spec fn is_decoding(
    r: Result<(ArtifactCodecBundle, ArtifactCodecProvenance), ArtifactCodecError>,
    manifest: PluginManifest,
    detected: Seq<ArtifactCodecCompatibility>,
    output: ArtifactCodecOutput,
) -> bool {
    match output {
        ArtifactCodecOutput::Decode { interface_version, format, bundle, compatibility } => {
            let count = detected.len() + compatibility@.len();
            if !is_sound_answer(interface_version@, compatibility@) {
                r matches Err(e) && is_answer_error(
                    e,
                    output,
                    "decode",
                    interface_version@,
                    compatibility@,
                )
            } else if !offers(manifest, format@) {
                r == Err::<(ArtifactCodecBundle, ArtifactCodecProvenance), ArtifactCodecError>(
                    ArtifactCodecError::InvalidFormat(format),
                )
            } else if count > MAX_CODEC_COMPATIBILITY_ITEMS {
                r == Err::<(ArtifactCodecBundle, ArtifactCodecProvenance), ArtifactCodecError>(
                    ArtifactCodecError::CompatibilityCount {
                        actual: count as usize,
                        limit: MAX_CODEC_COMPATIBILITY_ITEMS,
                    },
                )
            } else {
                r matches Ok(taken) && taken.0 == bundle && is_provenance(
                    taken.1,
                    manifest,
                    interface_version,
                    format,
                    detected + compatibility@,
                )
            }
        },
        _ => r == Err::<(ArtifactCodecBundle, ArtifactCodecProvenance), ArtifactCodecError>(
            ArtifactCodecError::Operation { expected: "decode", actual: operation_of(output) },
        ),
    }
}

/// What a codec that claimed a file made of it, with where that comes from.
pub fn accept_decoding(
    manifest: &PluginManifest,
    detected: Vec<ArtifactCodecCompatibility>,
    output: ArtifactCodecOutput,
) -> (r: Result<(ArtifactCodecBundle, ArtifactCodecProvenance), ArtifactCodecError>)
    requires
        detected@.len() <= MAX_CODEC_COMPATIBILITY_ITEMS,
    ensures
        is_decoding(r, *manifest, detected@, output),
{
    match output {
        ArtifactCodecOutput::Decode { interface_version, format, bundle, compatibility } => {
            match validate_codec_interface(interface_version.as_str()) {
                Ok(()) => {},
                Err(e) => return Err(e),
            }
            match validate_codec_compatibility(&compatibility) {
                Ok(()) => {},
                Err(e) => return Err(e),
            }
            let offered = match &manifest.artifact_codec {
                Some(codec) => contains_text(&codec.formats, format.as_str()),
                None => false,
            };
            if !offered {
                return Err(ArtifactCodecError::InvalidFormat(format));
            }
            let count: usize = detected.len() + compatibility.len();
            if count > MAX_CODEC_COMPATIBILITY_ITEMS {
                return Err(
                    ArtifactCodecError::CompatibilityCount {
                        actual: count,
                        limit: MAX_CODEC_COMPATIBILITY_ITEMS,
                    },
                );
            }
            let mut all = detected;
            let mut more = compatibility;
            all.append(&mut more);
            let provenance = ArtifactCodecProvenance {
                plugin_id: manifest.id.clone(),
                version: manifest.version.clone(),
                component_sha256: manifest.component_sha256,
                interface_version,
                format,
                compatibility: all,
                supplementary_artifacts: Vec::new(),
            };
            Ok((bundle, provenance))
        },
        other => Err(codec_operation_error("decode", &other)),
    }
}

/// What the answer of a codec says that an artifact is as a file.
pub open spec fn is_encoding(
    r: Result<Vec<u8>, ArtifactCodecError>,
    output: ArtifactCodecOutput,
) -> bool {
    match output {
        ArtifactCodecOutput::Encode { interface_version, source, compatibility } => {
            if !is_sound_answer(interface_version@, compatibility@) {
                r matches Err(e) && is_answer_error(
                    e,
                    output,
                    "encode",
                    interface_version@,
                    compatibility@,
                )
            } else {
                match base64_decoded(source@) {
                    Err(message) => r matches Err(ArtifactCodecError::InvalidBase64 {
                        field,
                        source: told,
                    }) && field@ == "encoded source"@ && told@ == message,
                    Ok(bytes) => if bytes.len() > MAX_CODEC_SOURCE_BYTES {
                        r == Err::<Vec<u8>, ArtifactCodecError>(
                            ArtifactCodecError::EncodedSourceSize {
                                actual: bytes.len() as usize,
                                limit: MAX_CODEC_SOURCE_BYTES,
                            },
                        )
                    } else {
                        r matches Ok(file) && file@ == bytes
                    },
                }
            }
        },
        _ => r == Err::<Vec<u8>, ArtifactCodecError>(
            ArtifactCodecError::Operation { expected: "encode", actual: operation_of(output) },
        ),
    }
}

/// The file that a codec made of an artifact.
pub fn accept_encoding(output: ArtifactCodecOutput) -> (r: Result<Vec<u8>, ArtifactCodecError>)
    ensures
        is_encoding(r, output),
{
    match output {
        ArtifactCodecOutput::Encode { interface_version, source, compatibility } => {
            match validate_codec_interface(interface_version.as_str()) {
                Ok(()) => {},
                Err(e) => return Err(e),
            }
            match validate_codec_compatibility(&compatibility) {
                Ok(()) => {},
                Err(e) => return Err(e),
            }
            let file = match decode_base64(source.as_str()) {
                Ok(file) => file,
                Err(message) => {
                    return Err(
                        ArtifactCodecError::InvalidBase64 {
                            field: "encoded source",
                            source: message,
                        },
                    );
                },
            };
            let size: usize = file.len();
            if size > MAX_CODEC_SOURCE_BYTES {
                return Err(
                    ArtifactCodecError::EncodedSourceSize {
                        actual: size,
                        limit: MAX_CODEC_SOURCE_BYTES,
                    },
                );
            }
            Ok(file)
        },
        other => Err(codec_operation_error("encode", &other)),
    }
}

/// The bounds within which a codec runs.
pub fn codec_limits() -> (limits: PluginLimits)
    ensures
        limits.input_bytes == 16777216,
        limits.output_bytes == 16777216,
        limits.memory_bytes == 67108864,
        limits.component_bytes == 4194304,
        limits.fuel == 10000000,
        limits.timeout_ms == 250,
{
    let usual = PluginLimits::default();
    PluginLimits {
        component_bytes: usual.component_bytes,
        input_bytes: 16777216,
        output_bytes: 16777216,
        memory_bytes: 67108864,
        fuel: usual.fuel,
        timeout_ms: usual.timeout_ms,
        script: usual.script,
    }
}

/// What a codec is given when it runs: the question, and nothing of a session.
pub fn codec_input(manifest: &PluginManifest, question: Json) -> (input: PluginInput)
    ensures
        input.event == PluginEvent::InspectArtifact,
        input.plugin_id == manifest.id,
        input.payload == question,
        input.settings == Json::Null,
        input.context == Json::Null,
        input.state == Json::Null,
        input.artifact == Json::Null,
        input.session == Json::Null,
{
    PluginInput {
        event: PluginEvent::InspectArtifact,
        plugin_id: manifest.id.clone(),
        settings: Json::Null,
        context: Json::Null,
        payload: question,
        state: Json::Null,
        artifact: Json::Null,
        session: Json::Null,
    }
}

/// The codec of an identity, version and digest with the grant that it runs
/// under, or why it may not be asked.
pub open spec fn is_codec_plugin(
    r: Result<(InstalledPlugin, PluginGrant), EngineError>,
    listing: Seq<InstalledPlugin>,
    id: String,
    version: String,
    digest: ContentHash,
    capabilities: Seq<PluginCapability>,
) -> bool {
    exists|found: Option<InstalledPlugin>| #[trigger]
        is_first_pinned(found, listing, id@, version@, digest@) && match found {
            None => r == Err::<(InstalledPlugin, PluginGrant), EngineError>(
                EngineError::PluginNotFound { id, version, digest },
            ),
            Some(installed) => exists|granted: Result<PluginGrant, ArtifactCodecError>| #[trigger]
                is_codec_grant(granted, installed.manifest, capabilities) && r == match granted {
                    Ok(grant) => Ok::<(InstalledPlugin, PluginGrant), EngineError>(
                        (installed, grant),
                    ),
                    Err(e) => Err(EngineError::ArtifactCodec(e)),
                },
        }
}

/// A codec with its grant, by value.
pub open spec fn owned(r: Result<(&InstalledPlugin, PluginGrant), EngineError>) -> Result<
    (InstalledPlugin, PluginGrant),
    EngineError,
> {
    match r {
        Ok((installed, grant)) => Ok((*installed, grant)),
        Err(e) => Err(e),
    }
}

fn codec_plugin<'a>(
    registry: &PluginRegistry,
    listing: &'a Vec<InstalledPlugin>,
    id: &String,
    version: &String,
    digest: &ContentHash,
    capabilities: &Vec<PluginCapability>,
) -> (r: Result<(&'a InstalledPlugin, PluginGrant), EngineError>)
    ensures
        is_codec_plugin(owned(r), listing@, *id, *version, *digest, capabilities@),
{
    let installed = match installed_plugin(registry, listing, id, version, digest) {
        Ok(installed) => {
            proof {
                assert(is_first_pinned(Some(*installed), listing@, id@, version@, digest@));
            }
            installed
        },
        Err(e) => {
            proof {
                assert(is_first_pinned(None, listing@, id@, version@, digest@));
            }
            return Err(e);
        },
    };
    let granted = codec_grant(&installed.manifest, capabilities);
    proof {
        assert(is_codec_grant(granted, installed.manifest, capabilities@));
    }
    match granted {
        Ok(grant) => Ok((installed, grant)),
        Err(e) => Err(EngineError::ArtifactCodec(e)),
    }
}

/// A codec that claims a file, the grant that it runs under, and what there is to
/// know.
pub struct CodecClaim<'a> {
    pub plugin: &'a InstalledPlugin,
    pub grant: PluginGrant,
    pub compatibility: Vec<ArtifactCodecCompatibility>,
}

/// What is to be done next about a file that a codec may know.
pub enum CodecStep<'a> {
    /// A codec is to be asked.
    Ask { plugin: &'a InstalledPlugin, grant: PluginGrant, question: ArtifactCodecInput },
    /// Nothing: that is what came of it.
    Done(Result<Option<(ArtifactCodecBundle, ArtifactCodecProvenance)>, EngineError>),
}

/// A codec is asked whether it knows a file.
pub open spec fn asks_to_detect(
    step: CodecStep,
    installed: InstalledPlugin,
    granted: PluginGrant,
    encoded: Seq<char>,
) -> bool {
    step matches CodecStep::Ask { plugin, grant, question: ArtifactCodecInput::Detect {
        interface_version,
        source,
    } } && *plugin == installed && grant == granted && interface_version@
        == ARTIFACT_CODEC_INTERFACE_VERSION@ && source@ == encoded
}

/// A codec is asked what a file is.
pub open spec fn asks_to_decode(
    step: CodecStep,
    installed: InstalledPlugin,
    granted: PluginGrant,
    encoded: Seq<char>,
) -> bool {
    step matches CodecStep::Ask { plugin, grant, question: ArtifactCodecInput::Decode {
        interface_version,
        source,
    } } && *plugin == installed && grant == granted && interface_version@
        == ARTIFACT_CODEC_INTERFACE_VERSION@ && source@ == encoded
}

/// The identities of the codecs that claim a file.
pub open spec fn claimants(claims: Seq<CodecClaim>) -> Seq<Seq<char>> {
    Seq::new(claims.len(), |i: int| claims[i].plugin.manifest.id@)
}

/// What is done once every codec has been asked: no codec knows the file, more
/// than one does, or the one that does is asked what it is.
pub open spec fn is_settled(
    step: CodecStep,
    encoded: Seq<char>,
    answers: Seq<ArtifactCodecOutput>,
    claims: Seq<CodecClaim>,
) -> bool {
    if claims.len() > 1 {
        step matches CodecStep::Done(
            Err(EngineError::ArtifactCodec(ArtifactCodecError::AmbiguousFormatClaims(ids))),
        ) && views(ids@) == sorted_texts(claimants(claims))
    } else if claims.len() == 0 {
        step == CodecStep::Done(Ok(None))
    } else if answers.len() == 0 {
        asks_to_decode(step, *claims[0].plugin, claims[0].grant, encoded)
    } else {
        exists|taken: Result<(ArtifactCodecBundle, ArtifactCodecProvenance), ArtifactCodecError>|
            #[trigger] is_decoding(
                taken,
                claims[0].plugin.manifest,
                claims[0].compatibility@,
                answers[0],
            ) && step == match taken {
                Ok(made) => CodecStep::Done(Ok(Some(made))),
                Err(e) => CodecStep::Done(Err(EngineError::ArtifactCodec(e))),
            }
    }
}

/// What is done about a file from registration `i` on, given the answers that
/// are still to be taken and the claims that were made: every codec that is
/// registered is asked in turn.
pub open spec fn is_search(
    step: CodecStep,
    registrations: Seq<ArtifactInspectorRegistration>,
    listing: Seq<InstalledPlugin>,
    encoded: Seq<char>,
    i: int,
    answers: Seq<ArtifactCodecOutput>,
    claims: Seq<CodecClaim>,
) -> bool
    decreases registrations.len() - i,
{
    if i < 0 || i >= registrations.len() {
        is_settled(step, encoded, answers, claims)
    } else if !registrations[i].capabilities@.contains(PluginCapability::ArtifactCodec) {
        is_search(step, registrations, listing, encoded, i + 1, answers, claims)
    } else {
        exists|codec: Result<(InstalledPlugin, PluginGrant), EngineError>| #[trigger]
            is_codec_plugin(
                codec,
                listing,
                registrations[i].id,
                registrations[i].version,
                registrations[i].component_sha256,
                registrations[i].capabilities@,
            ) && match codec {
                Err(e) => step == CodecStep::Done(Err(e)),
                Ok((installed, grant)) => if answers.len() == 0 {
                    asks_to_detect(step, installed, grant, encoded)
                } else {
                    exists|taken: Result<
                        Option<Vec<ArtifactCodecCompatibility>>,
                        ArtifactCodecError,
                    >| #[trigger]
                        is_detection(taken, answers[0]) && match taken {
                            Err(e) => step == CodecStep::Done(Err(EngineError::ArtifactCodec(e))),
                            Ok(None) => is_search(
                                step,
                                registrations,
                                listing,
                                encoded,
                                i + 1,
                                answers.drop_first(),
                                claims,
                            ),
                            Ok(Some(compatibility)) => is_search(
                                step,
                                registrations,
                                listing,
                                encoded,
                                i + 1,
                                answers.drop_first(),
                                claims.push(
                                    CodecClaim { plugin: &installed, grant, compatibility },
                                ),
                            ),
                        }
                },
            }
    }
}

fn settle_search<'a>(
    encoded: String,
    answers: Vec<ArtifactCodecOutput>,
    claims: Vec<CodecClaim<'a>>,
) -> (step: CodecStep<'a>)
    requires
        forall|i: int|
            0 <= i < claims@.len() ==> (#[trigger] claims@[i]).compatibility@.len()
                <= MAX_CODEC_COMPATIBILITY_ITEMS,
    ensures
        is_settled(step, encoded@, answers@, claims@),
{
    let mut ids: Vec<String> = Vec::new();
    let mut i: usize = 0;
    while i < claims.len()
        invariant
            i <= claims@.len(),
            views(ids@) =~= claimants(claims@).take(i as int),
        decreases claims@.len() - i,
    {
        let ghost before = ids@;
        ids.push(claims[i].plugin.manifest.id.clone());
        i = i + 1;
        proof {
            assert(views(ids@) =~= views(before).push(claims@[i - 1].plugin.manifest.id@));
        }
    }
    proof {
        assert(claimants(claims@).take(claims@.len() as int) =~= claimants(claims@));
        assert(views(ids@).len() == ids@.len());
    }
    match settle_claims(&ids) {
        Err(e) => return CodecStep::Done(Err(EngineError::ArtifactCodec(e))),
        Ok(false) => return CodecStep::Done(Ok(None)),
        Ok(true) => {},
    }
    let mut claims = claims;
    let mut answers = answers;
    let claim = claims.remove(0);
    if answers.len() == 0 {
        return CodecStep::Ask {
            plugin: claim.plugin,
            grant: claim.grant,
            question: ArtifactCodecInput::Decode {
                interface_version: ARTIFACT_CODEC_INTERFACE_VERSION.to_owned(),
                source: encoded,
            },
        };
    }
    let ghost detected = claim.compatibility@;
    let ghost answer = answers@[0];
    let taken = accept_decoding(&claim.plugin.manifest, claim.compatibility, answers.remove(0));
    proof {
        assert(is_decoding(taken, claim.plugin.manifest, detected, answer));
    }
    match taken {
        Ok(made) => CodecStep::Done(Ok(Some(made))),
        Err(e) => CodecStep::Done(Err(EngineError::ArtifactCodec(e))),
    }
}

fn search_from<'a>(
    registry: &PluginRegistry,
    registrations: &Vec<ArtifactInspectorRegistration>,
    listing: &'a Vec<InstalledPlugin>,
    encoded: String,
    i: usize,
    answers: Vec<ArtifactCodecOutput>,
    claims: Vec<CodecClaim<'a>>,
) -> (step: CodecStep<'a>)
    requires
        i <= registrations@.len(),
        forall|k: int|
            0 <= k < claims@.len() ==> (#[trigger] claims@[k]).compatibility@.len()
                <= MAX_CODEC_COMPATIBILITY_ITEMS,
    ensures
        is_search(
            step,
            registrations@,
            listing@,
            encoded@,
            i as int,
            answers@,
            claims@,
        ),
    decreases registrations@.len() - i,
{
    if i >= registrations.len() {
        return settle_search(encoded, answers, claims);
    }
    let registration = &registrations[i];
    if !has_capability(&registration.capabilities, PluginCapability::ArtifactCodec) {
        return search_from(registry, registrations, listing, encoded, i + 1, answers, claims);
    }
    let codec = codec_plugin(
        registry,
        listing,
        &registration.id,
        &registration.version,
        &registration.component_sha256,
        &registration.capabilities,
    );
    let ghost found = owned(codec);
    proof {
        assert(is_codec_plugin(
            found,
            listing@,
            registration.id,
            registration.version,
            registration.component_sha256,
            registration.capabilities@,
        ));
    }
    let (installed, grant) = match codec {
        Ok(codec) => codec,
        Err(e) => return CodecStep::Done(Err(e)),
    };
    let ghost asked = answers@;
    let mut answers = answers;
    let mut claims = claims;
    if answers.len() == 0 {
        return CodecStep::Ask {
            plugin: installed,
            grant,
            question: ArtifactCodecInput::Detect {
                interface_version: ARTIFACT_CODEC_INTERFACE_VERSION.to_owned(),
                source: encoded,
            },
        };
    }
    let taken = accept_detection(answers.remove(0));
    proof {
        assert(answers@ =~= asked.drop_first());
        assert(is_detection(taken, asked[0]));
    }
    match taken {
        Err(e) => CodecStep::Done(Err(EngineError::ArtifactCodec(e))),
        Ok(None) => search_from(
            registry,
            registrations,
            listing,
            encoded,
            i + 1,
            answers,
            claims,
        ),
        Ok(Some(compatibility)) => {
            claims.push(CodecClaim { plugin: installed, grant, compatibility });
            search_from(registry, registrations, listing, encoded, i + 1, answers, claims)
        },
    }
}

/// Finds out what a file is from the codecs that are registered, given what they
/// have answered so far: each is asked whether it knows the file, and the only
/// one that does what the file is. A file that is too large is shown to none.
pub fn decode_artifact_with_codec<'a>(
    registry: &PluginRegistry,
    registrations: &Vec<ArtifactInspectorRegistration>,
    listing: &'a Vec<InstalledPlugin>,
    source: &Vec<u8>,
    answers: Vec<ArtifactCodecOutput>,
) -> (step: CodecStep<'a>)
    ensures
        if source@.len() > MAX_CODEC_SOURCE_BYTES {
            step == CodecStep::Done(Ok(None))
        } else {
            is_search(
                step,
                registrations@,
                listing@,
                base64_encoded(source@),
                0,
                answers@,
                Seq::empty(),
            )
        },
{
    let encoded = match codec_source(source) {
        Some(encoded) => encoded,
        None => return CodecStep::Done(Ok(None)),
    };
    let claims: Vec<CodecClaim<'a>> = Vec::new();
    proof {
        assert(claims@ =~= Seq::empty());
    }
    search_from(registry, registrations, listing, encoded, 0, answers, claims)
}

/// What is to be done next to write an artifact as a file.
pub enum ExportStep<'a> {
    /// The artifact did not come from a codec: its payload is the file.
    Plain,
    /// The artifact and what belongs to it are to be packed.
    Pack,
    /// The codec is to be asked.
    Ask { plugin: &'a InstalledPlugin, grant: PluginGrant, question: ArtifactCodecInput },
    /// Nothing: that is the file.
    Done(Result<Vec<u8>, EngineError>),
}

/// The codec is asked to write what was packed in the format that it read.
pub open spec fn asks_to_encode(
    step: ExportStep,
    installed: InstalledPlugin,
    granted: PluginGrant,
    wanted: String,
    packed: ArtifactCodecBundle,
) -> bool {
    step matches ExportStep::Ask { plugin, grant, question: ArtifactCodecInput::Encode {
        interface_version,
        format,
        bundle,
    } } && *plugin == installed && grant == granted && interface_version@
        == ARTIFACT_CODEC_INTERFACE_VERSION@ && format == wanted && bundle == packed
}

/// The capabilities that a codec writes with.
pub open spec fn codec_capabilities() -> Seq<PluginCapability> {
    seq![PluginCapability::ArtifactCodec, PluginCapability::InspectArtifact]
}

/// What is done to write an artifact that came from a codec.
pub open spec fn is_export(
    step: ExportStep,
    listing: Seq<InstalledPlugin>,
    provenance: ArtifactCodecProvenance,
    packed: Option<ArtifactCodecBundle>,
    answer: Option<ArtifactCodecOutput>,
) -> bool {
    exists|codec: Result<(InstalledPlugin, PluginGrant), EngineError>| #[trigger]
        is_codec_plugin(
            codec,
            listing,
            provenance.plugin_id,
            provenance.version,
            provenance.component_sha256,
            codec_capabilities(),
        ) && match (codec, packed, answer) {
            (Err(e), _, _) => step == ExportStep::Done(Err(e)),
            (Ok(_), None, _) => step == ExportStep::Pack,
            (Ok((installed, grant)), Some(bundle), None) => asks_to_encode(
                step,
                installed,
                grant,
                provenance.format,
                bundle,
            ),
            (Ok(_), Some(_), Some(output)) => exists|written: Result<Vec<u8>, ArtifactCodecError>|
                #[trigger] is_encoding(written, output) && step == match written {
                    Ok(file) => ExportStep::Done(Ok(file)),
                    Err(e) => ExportStep::Done(Err(EngineError::ArtifactCodec(e))),
                },
        }
}

/// Writes an artifact as a file, with the codec that it came from where it came
/// from one.
pub fn export_artifact_with_codec<'a>(
    registry: &PluginRegistry,
    listing: &'a Vec<InstalledPlugin>,
    provenance: Option<&ArtifactCodecProvenance>,
    packed: Option<ArtifactCodecBundle>,
    answer: Option<ArtifactCodecOutput>,
) -> (step: ExportStep<'a>)
    ensures
        match provenance {
            None => step == ExportStep::Plain,
            Some(from) => is_export(step, listing@, *from, packed, answer),
        },
{
    let from = match provenance {
        Some(from) => from,
        None => return ExportStep::Plain,
    };
    let capabilities: Vec<PluginCapability> = vec![
        PluginCapability::ArtifactCodec,
        PluginCapability::InspectArtifact,
    ];
    proof {
        assert(capabilities@ =~= codec_capabilities());
    }
    let codec = codec_plugin(
        registry,
        listing,
        &from.plugin_id,
        &from.version,
        &from.component_sha256,
        &capabilities,
    );
    let ghost found = owned(codec);
    proof {
        assert(is_codec_plugin(
            found,
            listing@,
            from.plugin_id,
            from.version,
            from.component_sha256,
            capabilities@,
        ));
    }
    let (installed, grant) = match codec {
        Ok(codec) => codec,
        Err(e) => return ExportStep::Done(Err(e)),
    };
    let bundle = match packed {
        Some(bundle) => bundle,
        None => return ExportStep::Pack,
    };
    let output = match answer {
        Some(output) => output,
        None => {
            return ExportStep::Ask {
                plugin: installed,
                grant,
                question: ArtifactCodecInput::Encode {
                    interface_version: ARTIFACT_CODEC_INTERFACE_VERSION.to_owned(),
                    format: from.format.clone(),
                    bundle,
                },
            };
        },
    };
    let ghost told = output;
    let written = accept_encoding(output);
    proof {
        assert(is_encoding(written, told));
    }
    match written {
        Ok(file) => ExportStep::Done(Ok(file)),
        Err(e) => ExportStep::Done(Err(EngineError::ArtifactCodec(e))),
    }
}

} // verus!

//! What artifacts of a kind have to hold.
use vstd::prelude::*;

use crate::artifact::kind::{ArtifactError, ArtifactKind, DecodedArtifact};
use crate::json::{as_items, as_members, as_text, field, items_view, Json, JsonView};
use crate::lore::entry::{either, view_of};
use crate::prompt::prune::{find_last_char, last_char};
use crate::text::{
    ascii_lower_text, begins_with, contains_text, from_range, option_view, same_ignoring_case,
    starts_with, to_chars, views,
};

verus! {

/// A member that is a text.
pub open spec fn has_text(object: JsonView, name: Seq<char>) -> bool {
    as_text(field(object, name)) is Some
}

/// A value that is an array of texts.
pub open spec fn is_text_list(value: Option<JsonView>) -> bool {
    match as_items(value) {
        Some(items) => forall|i: int| 0 <= i < items.len() ==> #[trigger] items[i] is Text,
        None => false,
    }
}

/// A member of a card that has to be a text is one, or the error.
pub open spec fn wants_text(object: JsonView, name: &'static str) -> Option<ArtifactError> {
    if has_text(object, name@) {
        None
    } else {
        Some(ArtifactError::InvalidField(name))
    }
}

/// A member of a card that has to be a list of texts is one, or the error.
pub open spec fn wants_text_list(object: JsonView, name: &'static str) -> Option<ArtifactError> {
    if is_text_list(field(object, name@)) {
        None
    } else {
        Some(ArtifactError::InvalidField(name))
    }
}

/// The first error, or else the second.
pub open spec fn first_of(
    first: Option<ArtifactError>,
    second: Option<ArtifactError>,
) -> Option<ArtifactError> {
    match first {
        Some(e) => Some(e),
        None => second,
    }
}

/// What is wrong with the texts of a card, if anything is.
pub open spec fn card_texts_error(data: JsonView) -> Option<ArtifactError> {
    first_of(
        wants_text(data, "name"),
        first_of(
            wants_text(data, "description"),
            first_of(
                wants_text(data, "creator"),
                first_of(
                    wants_text(data, "character_version"),
                    first_of(
                        wants_text(data, "mes_example"),
                        first_of(wants_text(data, "system_prompt"), more_card_texts_error(data)),
                    ),
                ),
            ),
        ),
    )
}

/// What is wrong with the other texts of a card, if anything is.
pub open spec fn more_card_texts_error(data: JsonView) -> Option<ArtifactError> {
    first_of(
        wants_text(data, "post_history_instructions"),
        first_of(
            wants_text(data, "first_mes"),
            first_of(
                wants_text(data, "personality"),
                first_of(wants_text(data, "scenario"), wants_text(data, "creator_notes")),
            ),
        ),
    )
}

/// What is wrong with the lists of a card, if anything is.
pub open spec fn card_lists_error(data: JsonView) -> Option<ArtifactError> {
    first_of(
        wants_text_list(data, "tags"),
        first_of(
            wants_text_list(data, "alternate_greetings"),
            wants_text_list(data, "group_only_greetings"),
        ),
    )
}

/// An asset that a card declares.
pub open spec fn is_declared_asset(asset: JsonView) -> bool {
    &&& has_text(asset, "type"@)
    &&& has_text(asset, "uri"@)
    &&& has_text(asset, "name"@)
    &&& has_text(asset, "ext"@)
}

/// Every value is an asset that a card declares.
pub open spec fn all_declared(items: Seq<JsonView>) -> bool {
    forall|i: int| 0 <= i < items.len() ==> is_declared_asset(#[trigger] items[i])
}

/// A card declares no assets, or a list of them.
pub open spec fn are_declared_assets(assets: Option<JsonView>) -> bool {
    match assets {
        None => true,
        Some(value) => match as_items(Some(value)) {
            Some(items) => all_declared(items),
            None => false,
        },
    }
}

/// What is wrong with the data of a card, if anything is.
pub open spec fn card_data_error(data: JsonView) -> Option<ArtifactError> {
    first_of(
        card_texts_error(data),
        first_of(
            card_lists_error(data),
            if as_members(field(data, "extensions"@)) is None {
                Some(ArtifactError::InvalidField("extensions"))
            } else if !are_declared_assets(field(data, "assets"@)) {
                Some(ArtifactError::InvalidField("assets"))
            } else {
                None
            },
        ),
    )
}

/// What keeps an artifact from being a complete third card, if anything does.
pub open spec fn card_v3_error(kind: ArtifactKind, semantic: JsonView) -> Option<ArtifactError> {
    if kind != ArtifactKind::CharacterCardV3 {
        Some(ArtifactError::CharacterCardV3Required)
    } else if !(semantic is Object) {
        Some(ArtifactError::ExpectedObject)
    } else if !has_text(semantic, "spec_version"@) {
        Some(ArtifactError::MissingField("spec_version"))
    } else {
        match field(semantic, "data"@) {
            Some(data) => if data is Object {
                card_data_error(data)
            } else {
                Some(ArtifactError::MissingField("data"))
            },
            None => Some(ArtifactError::MissingField("data")),
        }
    }
}

fn check_text(object: &Json, name: &'static str) -> (error: Option<ArtifactError>)
    ensures
        error == wants_text(object@, name),
{
    if find_text(object, name) {
        None
    } else {
        Some(ArtifactError::InvalidField(name))
    }
}

fn find_text(object: &Json, name: &str) -> (r: bool)
    ensures
        r == has_text(object@, name@),
{
    match object.get(name) {
        Some(value) => value.text().is_some(),
        None => false,
    }
}

fn check_text_list(object: &Json, name: &'static str) -> (error: Option<ArtifactError>)
    ensures
        error == wants_text_list(object@, name),
{
    let listed = match object.get(name) {
        Some(value) => value.items(),
        None => None,
    };
    let items = match listed {
        Some(items) => items,
        None => return Some(ArtifactError::InvalidField(name)),
    };
    let ghost all = items_view(items@);
    let mut i: usize = 0;
    while i < items.len()
        invariant
            i <= items@.len(),
            all == items_view(items@),
            as_items(field(object@, name@)) == Some(all),
            forall|j: int| 0 <= j < i ==> #[trigger] all[j] is Text,
        decreases items@.len() - i,
    {
        proof {
            assert(all[i as int] == items@[i as int]@);
        }
        if items[i].text().is_none() {
            proof {
                assert(!(all[i as int] is Text));
            }
            return Some(ArtifactError::InvalidField(name));
        }
        i = i + 1;
    }
    None
}

fn or_check(first: Option<ArtifactError>, second: Option<ArtifactError>) -> (error: Option<
    ArtifactError,
>)
    ensures
        error == first_of(first, second),
{
    match first {
        Some(e) => Some(e),
        None => second,
    }
}

fn check_card_texts(data: &Json) -> (error: Option<ArtifactError>)
    ensures
        error == card_texts_error(data@),
{
    let rest = or_check(
        check_text(data, "post_history_instructions"),
        or_check(
            check_text(data, "first_mes"),
            or_check(
                check_text(data, "personality"),
                or_check(check_text(data, "scenario"), check_text(data, "creator_notes")),
            ),
        ),
    );
    or_check(
        check_text(data, "name"),
        or_check(
            check_text(data, "description"),
            or_check(
                check_text(data, "creator"),
                or_check(
                    check_text(data, "character_version"),
                    or_check(
                        check_text(data, "mes_example"),
                        or_check(check_text(data, "system_prompt"), rest),
                    ),
                ),
            ),
        ),
    )
}

fn check_declared_assets(assets: Option<&Json>) -> (r: bool)
    ensures
        r == are_declared_assets(view_of(assets)),
{
    let value = match assets {
        Some(value) => value,
        None => return true,
    };
    let items = match value.items() {
        Some(items) => items,
        None => return false,
    };
    let ghost all = items_view(items@);
    let mut i: usize = 0;
    while i < items.len()
        invariant
            i <= items@.len(),
            all == items_view(items@),
            assets == Some(value),
            as_items(Some(value@)) == Some(all),
            forall|j: int| 0 <= j < i ==> is_declared_asset(#[trigger] all[j]),
        decreases items@.len() - i,
    {
        proof {
            assert(all[i as int] == items@[i as int]@);
        }
        let asset = &items[i];
        if !find_text(asset, "type") || !find_text(asset, "uri") || !find_text(asset, "name")
            || !find_text(asset, "ext") {
            proof {
                assert(0 <= i < all.len());
                assert(!is_declared_asset(all[i as int]));
                assert(!all_declared(all));
            }
            return false;
        }
        i = i + 1;
    }
    true
}

/// Checks that an artifact is a complete third card.
pub fn validate_character_card_v3(decoded: &DecodedArtifact) -> (r: Result<(), ArtifactError>)
    ensures
        match r {
            Ok(()) => card_v3_error(decoded.kind, decoded.semantic@) is None,
            Err(e) => card_v3_error(decoded.kind, decoded.semantic@) == Some(e),
        },
{
    if decoded.kind != ArtifactKind::CharacterCardV3 {
        return Err(ArtifactError::CharacterCardV3Required);
    }
    if decoded.semantic.members().is_none() {
        return Err(ArtifactError::ExpectedObject);
    }
    if !find_text(&decoded.semantic, "spec_version") {
        return Err(ArtifactError::MissingField("spec_version"));
    }
    let data = match decoded.semantic.get("data") {
        Some(data) => data,
        None => return Err(ArtifactError::MissingField("data")),
    };
    if data.members().is_none() {
        return Err(ArtifactError::MissingField("data"));
    }
    if let Some(e) = check_card_texts(data) {
        return Err(e);
    }
    let lists = or_check(
        check_text_list(data, "tags"),
        or_check(
            check_text_list(data, "alternate_greetings"),
            check_text_list(data, "group_only_greetings"),
        ),
    );
    if let Some(e) = lists {
        return Err(e);
    }
    let has_extensions = match data.get("extensions") {
        Some(value) => value.members().is_some(),
        None => false,
    };
    if !has_extensions {
        return Err(ArtifactError::InvalidField("extensions"));
    }
    if !check_declared_assets(data.get("assets")) {
        return Err(ArtifactError::InvalidField("assets"));
    }
    Ok(())
}

/// The entries that a lorebook holds, at its root or in its data.
pub open spec fn lorebook_entries(semantic: JsonView) -> Option<JsonView> {
    either(
        field(semantic, "entries"@),
        match field(semantic, "data"@) {
            Some(data) => field(data, "entries"@),
            None => None,
        },
    )
}

/// An artifact that is a lorebook with entries.
pub open spec fn is_lorebook(kind: ArtifactKind, semantic: JsonView) -> bool {
    kind == ArtifactKind::Lorebook && match lorebook_entries(semantic) {
        Some(entries) => entries is Array || entries is Object,
        None => false,
    }
}

/// Checks that an artifact is a lorebook with entries.
pub fn validate_lorebook(decoded: &DecodedArtifact) -> (r: Result<(), ArtifactError>)
    ensures
        r == if is_lorebook(decoded.kind, decoded.semantic@) {
            Ok::<(), ArtifactError>(())
        } else {
            Err(ArtifactError::LorebookRequired)
        },
{
    if decoded.kind != ArtifactKind::Lorebook {
        return Err(ArtifactError::LorebookRequired);
    }
    let own = decoded.semantic.get("entries");
    let entries = if own.is_some() {
        own
    } else {
        match decoded.semantic.get("data") {
            Some(data) => data.get("entries"),
            None => None,
        }
    };
    match entries {
        Some(value) => if value.items().is_some() || value.members().is_some() {
            Ok(())
        } else {
            Err(ArtifactError::LorebookRequired)
        },
        None => Err(ArtifactError::LorebookRequired),
    }
}

/// The endings of the names of media files.
pub open spec fn is_media_ending(ending: Seq<char>) -> bool {
    ||| ending == "png"@
    ||| ending == "jpg"@
    ||| ending == "jpeg"@
    ||| ending == "gif"@
    ||| ending == "webp"@
    ||| ending == "avif"@
    ||| ending == "mp3"@
    ||| ending == "ogg"@
    ||| ending == "wav"@
    ||| ending == "flac"@
    ||| ending == "m4a"@
    ||| ending == "mp4"@
    ||| ending == "webm"@
}

/// The path of a media file among the assets of a card.
pub open spec fn names_media(path: Seq<char>) -> bool {
    &&& begins_with(path, "assets/"@)
    &&& match last_char(path, '.', path.len() as int) {
        Some(at) => is_media_ending(ascii_lower_text(path.skip(at + 1))),
        None => false,
    }
}

fn check_media_ending(ending: &str) -> (r: bool)
    ensures
        r == is_media_ending(ascii_lower_text(ending@)),
{
    proof {
        lemma_lower_literals();
    }
    same_ignoring_case(ending, "png") || same_ignoring_case(ending, "jpg") || same_ignoring_case(
        ending,
        "jpeg",
    ) || same_ignoring_case(ending, "gif") || same_ignoring_case(ending, "webp")
        || same_ignoring_case(ending, "avif") || same_ignoring_case(ending, "mp3")
        || same_ignoring_case(ending, "ogg") || same_ignoring_case(ending, "wav")
        || same_ignoring_case(ending, "flac") || same_ignoring_case(ending, "m4a")
        || same_ignoring_case(ending, "mp4") || same_ignoring_case(ending, "webm")
}

proof fn lemma_lower_literals()
    ensures
        ascii_lower_text("png"@) == "png"@,
        ascii_lower_text("jpg"@) == "jpg"@,
        ascii_lower_text("jpeg"@) == "jpeg"@,
        ascii_lower_text("gif"@) == "gif"@,
        ascii_lower_text("webp"@) == "webp"@,
        ascii_lower_text("avif"@) == "avif"@,
        ascii_lower_text("mp3"@) == "mp3"@,
        ascii_lower_text("ogg"@) == "ogg"@,
        ascii_lower_text("wav"@) == "wav"@,
        ascii_lower_text("flac"@) == "flac"@,
        ascii_lower_text("m4a"@) == "m4a"@,
        ascii_lower_text("mp4"@) == "mp4"@,
        ascii_lower_text("webm"@) == "webm"@,
{
    reveal_strlit("png");
    reveal_strlit("jpg");
    reveal_strlit("jpeg");
    reveal_strlit("gif");
    reveal_strlit("webp");
    reveal_strlit("avif");
    reveal_strlit("mp3");
    reveal_strlit("ogg");
    reveal_strlit("wav");
    reveal_strlit("flac");
    reveal_strlit("m4a");
    reveal_strlit("mp4");
    reveal_strlit("webm");
    assert(ascii_lower_text("png"@) =~= "png"@);
    assert(ascii_lower_text("jpg"@) =~= "jpg"@);
    assert(ascii_lower_text("jpeg"@) =~= "jpeg"@);
    assert(ascii_lower_text("gif"@) =~= "gif"@);
    assert(ascii_lower_text("webp"@) =~= "webp"@);
    assert(ascii_lower_text("avif"@) =~= "avif"@);
    assert(ascii_lower_text("mp3"@) =~= "mp3"@);
    assert(ascii_lower_text("ogg"@) =~= "ogg"@);
    assert(ascii_lower_text("wav"@) =~= "wav"@);
    assert(ascii_lower_text("flac"@) =~= "flac"@);
    assert(ascii_lower_text("m4a"@) =~= "m4a"@);
    assert(ascii_lower_text("mp4"@) =~= "mp4"@);
    assert(ascii_lower_text("webm"@) =~= "webm"@);
}

/// Whether a path is that of a media file among the assets of a card.
pub fn is_media_path(path: &str) -> (r: bool)
    ensures
        r == names_media(path@),
{
    if !starts_with(path, "assets/") {
        return false;
    }
    let chars = to_chars(path);
    let end: usize = chars.len();
    match find_last_char(&chars, '.') {
        Some(at) => {
            let ending = from_range(&chars, at + 1, end);
            proof {
                assert(ending@ =~= path@.skip(at + 1));
            }
            check_media_ending(ending.as_str())
        },
        None => false,
    }
}

/// The path that an asset's declaration has within the bundle, if it has one.
pub open spec fn embedded_path(declaration: JsonView) -> Option<Seq<char>> {
    match as_text(field(declaration, "uri"@)) {
        Some(uri) => if begins_with(uri, "embeded://"@) {
            Some(uri.skip(10))
        } else {
            None
        },
        None => None,
    }
}

/// An asset that is declared within the bundle is not among its paths.
pub open spec fn is_missing(declaration: JsonView, paths: Seq<Seq<char>>) -> bool {
    match embedded_path(declaration) {
        Some(path) => names_media(path) && !paths.contains(path),
        None => false,
    }
}

/// The first of the declarations from place `i` on whose asset is missing.
pub open spec fn first_missing(
    declarations: Seq<JsonView>,
    paths: Seq<Seq<char>>,
    i: int,
) -> Option<Seq<char>>
    decreases declarations.len() - i,
{
    if i < 0 || i >= declarations.len() {
        None
    } else if is_missing(declarations[i], paths) {
        embedded_path(declarations[i])
    } else {
        first_missing(declarations, paths, i + 1)
    }
}

/// The asset that a card declares within its bundle and that is missing there,
/// if there is one.
pub open spec fn missing_asset(semantic: JsonView, paths: Seq<Seq<char>>) -> Option<Seq<char>> {
    match field(semantic, "data"@) {
        Some(data) => match as_items(field(data, "assets"@)) {
            Some(declarations) => first_missing(declarations, paths, 0),
            None => None,
        },
        None => None,
    }
}

fn find_embedded_path(declaration: &Json) -> (path: Option<String>)
    ensures
        option_view(path) == embedded_path(declaration@),
{
    let uri = match declaration.get("uri") {
        Some(value) => match value.text() {
            Some(uri) => uri,
            None => return None,
        },
        None => return None,
    };
    if !starts_with(uri.as_str(), "embeded://") {
        return None;
    }
    let chars = to_chars(uri.as_str());
    proof {
        reveal_strlit("embeded://");
        assert(chars@.len() >= 10);
        assert(chars@.subrange(10, chars@.len() as int) =~= uri@.skip(10));
    }
    Some(from_range(&chars, 10, chars.len()))
}

/// Checks that the assets which a card declares within its bundle are there.
pub fn validate_embedded_asset_references(card: &DecodedArtifact, paths: &Vec<String>) -> (r:
    Result<(), ArtifactError>)
    ensures
        match r {
            Ok(()) => missing_asset(card.semantic@, views(paths@)) is None,
            Err(ArtifactError::MissingDeclaredAsset(path)) => missing_asset(
                card.semantic@,
                views(paths@),
            ) == Some(path@),
            Err(_) => false,
        },
{
    let listed = match card.semantic.get("data") {
        Some(data) => match data.get("assets") {
            Some(assets) => assets.items(),
            None => None,
        },
        None => None,
    };
    let declarations = match listed {
        Some(items) => items,
        None => return Ok(()),
    };
    let ghost all = items_view(declarations@);
    let mut i: usize = 0;
    while i < declarations.len()
        invariant
            i <= declarations@.len(),
            all == items_view(declarations@),
            missing_asset(card.semantic@, views(paths@)) == first_missing(
                all,
                views(paths@),
                i as int,
            ),
        decreases declarations@.len() - i,
    {
        proof {
            assert(all[i as int] == declarations@[i as int]@);
        }
        if let Some(path) = find_embedded_path(&declarations[i]) {
            if is_media_path(path.as_str()) && !contains_text(paths, path.as_str()) {
                return Err(ArtifactError::MissingDeclaredAsset(path));
            }
        }
        i = i + 1;
    }
    Ok(())
}

} // verus!

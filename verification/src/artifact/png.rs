//! Character cards in PNG pictures.
use vstd::prelude::*;
use vstd::slice::slice_subrange;

use crate::artifact::exif::ContainerError;
use crate::artifact::octets::{
    byte_from, ByteOrder, copy_range, find_byte, is_marked, marks, number32, read32, trim_bytes,
    trimmed_bytes,
};
use crate::artifact::webp::range_view;
use crate::artifact_codec::{base64_bytes, decode_base64_bytes};

verus! {

/// The bytes that every PNG picture begins with.
pub const PNG_SIGNATURE: &'static str = "\u{89}PNG\r\n\u{1a}\n";

/// The CRC that `crc32fast` works out of bytes.
pub uninterp spec fn crc32_of(bytes: Seq<u8>) -> u32;

/// `crc32fast::Hasher`, updated with two runs of bytes and finalized: the number
/// is that of the two runs in a row, and depends on the bytes alone.
#[verifier::external_body]
pub(crate) fn crc32(first: &[u8], second: &[u8]) -> (crc: u32)
    ensures
        crc == crc32_of(first@ + second@),
{
    let mut hasher = crc32fast::Hasher::new();
    hasher.update(first);
    hasher.update(second);
    hasher.finalize()
}

/// At most so many of the bytes that `flate2` unpacks, or why it unpacks none.
pub uninterp spec fn inflated(packed: Seq<u8>, limit: u64) -> Result<Seq<u8>, Seq<char>>;

/// The outcome of unpacking, by its views.
pub open spec fn inflation_view(r: Result<Vec<u8>, String>) -> Result<Seq<u8>, Seq<char>> {
    match r {
        Ok(bytes) => Ok(bytes@),
        Err(message) => Err(message@),
    }
}

/// `flate2::read::ZlibDecoder`, read to its end or to a limit: the bytes, or the
/// message of the error, depend on what is read and on the limit alone, and there
/// are no more bytes than the limit.
#[verifier::external_body]
pub(crate) fn inflate(packed: &[u8], limit: u64) -> (r: Result<Vec<u8>, String>)
    ensures
        inflation_view(r) == inflated(packed@, limit),
        r matches Ok(bytes) ==> bytes@.len() <= limit,
{
    let mut bytes = Vec::new();
    let mut reader = std::io::Read::take(flate2::read::ZlibDecoder::new(packed), limit);
    match std::io::Read::read_to_end(&mut reader, &mut bytes) {
        Ok(_) => Ok(bytes),
        Err(error) => Err(error.to_string()),
    }
}

/// The texts of a picture that may be cards: where the first of each kind stands.
pub struct TextsView {
    pub third: Option<(int, int)>,
    pub international: Option<(int, int)>,
    pub plain: Option<(int, int)>,
}

/// The text of a chunk: where its keyword ends and where it ends itself. A chunk
/// without the zero that ends a keyword has none.
pub open spec fn keyword_end(source: Seq<u8>, from: int, to: int) -> Option<int> {
    let at = byte_from(source, 0, from);
    if at < to {
        Some(at)
    } else {
        None
    }
}

/// A chunk has a keyword.
pub open spec fn has_keyword(source: Seq<u8>, from: int, at: int, keyword: Seq<char>) -> bool {
    at - from == keyword.len() && marks(source, from, keyword)
}

/// The texts of a picture, with that of a chunk where it is the first of its
/// kind.
pub open spec fn with_text(found: TextsView, source: Seq<u8>, kind: int, from: int, to: int) -> TextsView {
    match keyword_end(source, from, to) {
        None => found,
        Some(at) => if marks(source, kind, "tEXt"@) {
            if has_keyword(source, from, at, "chara"@) && found.plain is None {
                TextsView { plain: Some((at + 1, to)), ..found }
            } else {
                found
            }
        } else if marks(source, kind, "iTXt"@) {
            if has_keyword(source, from, at, "ccv3"@) && found.third is None {
                TextsView { third: Some((at + 1, to)), ..found }
            } else if has_keyword(source, from, at, "chara"@) && found.international is None {
                TextsView { international: Some((at + 1, to)), ..found }
            } else {
                found
            }
        } else {
            found
        },
    }
}

/// The texts of the chunks from a place on, behind those found before. A chunk is
/// the number of its bytes, a name, the bytes, and their CRC with that of the
/// name. The last chunk has no bytes.
pub open spec fn texts_from(source: Seq<u8>, offset: int, found: TextsView) -> Result<
    TextsView,
    ContainerError,
>
    decreases source.len() - offset,
{
    if offset < 0 || offset >= source.len() {
        Err(ContainerError::TruncatedPng)
    } else {
        let start = offset + 8;
        let length = number32(ByteOrder::Big, source, offset);
        let end = start + length;
        if start > source.len() || end + 4 > source.len() {
            Err(ContainerError::TruncatedPng)
        } else if crc32_of(source.subrange(offset + 4, end)) != number32(ByteOrder::Big, source, end) {
            Err(ContainerError::InvalidPng("chunk CRC mismatch"))
        } else if marks(source, offset + 4, "IEND"@) {
            if length == 0 {
                Ok(found)
            } else {
                Err(ContainerError::InvalidPng("IEND chunk is not empty"))
            }
        } else {
            texts_from(source, end + 4, with_text(found, source, offset + 4, start, end))
        }
    }
}

/// The texts of a picture that may be cards.
struct Texts {
    third: Option<(usize, usize)>,
    international: Option<(usize, usize)>,
    plain: Option<(usize, usize)>,
}

impl View for Texts {
    type V = TextsView;

    closed spec fn view(&self) -> TextsView {
        TextsView {
            third: range_view(self.third),
            international: range_view(self.international),
            plain: range_view(self.plain),
        }
    }
}

/// A range that may be absent lies within so many bytes.
pub open spec fn is_within_bytes(range: Option<(usize, usize)>, total: int) -> bool {
    range matches Some((from, to)) ==> from <= to <= total
}

impl Texts {
    /// The ranges lie within so many bytes.
    closed spec fn wf(self, total: int) -> bool {
        &&& is_within_bytes(self.third, total)
        &&& is_within_bytes(self.international, total)
        &&& is_within_bytes(self.plain, total)
    }
}

fn note_text(found: &mut Texts, source: &Vec<u8>, kind: usize, from: usize, to: usize)
    requires
        old(found).wf(source@.len() as int),
        from <= to <= source@.len(),
    ensures
        final(found)@ == with_text(old(found)@, source@, kind as int, from as int, to as int),
        final(found).wf(source@.len() as int),
{
    proof {
        reveal_strlit("chara");
        reveal_strlit("ccv3");
    }
    let at: usize = find_byte(source, 0, from);
    if at >= to {
        return;
    }
    if is_marked(source, kind, "tEXt") {
        if at - from == 5 && is_marked(source, from, "chara") && found.plain.is_none() {
            found.plain = Some((at + 1, to));
        }
    } else if is_marked(source, kind, "iTXt") {
        if at - from == 4 && is_marked(source, from, "ccv3") && found.third.is_none() {
            found.third = Some((at + 1, to));
        } else if at - from == 5 && is_marked(source, from, "chara")
            && found.international.is_none() {
            found.international = Some((at + 1, to));
        }
    }
}

fn find_texts(source: &Vec<u8>) -> (r: Result<Texts, ContainerError>)
    requires
        source@.len() >= 8,
    ensures
        match (
            r,
            texts_from(source@, 8, TextsView { third: None, international: None, plain: None }),
        ) {
            (Ok(found), Ok(expected)) => found@ == expected && found.wf(source@.len() as int),
            (Err(e), Err(expected)) => e == expected,
            _ => false,
        },
{
    let total: usize = source.len();
    let mut found = Texts { third: None, international: None, plain: None };
    let mut offset: usize = 8;
    while offset < total
        invariant
            offset <= total,
            total == source@.len(),
            found.wf(total as int),
            texts_from(source@, 8, TextsView { third: None, international: None, plain: None })
                == texts_from(source@, offset as int, found@),
        decreases total - offset,
    {
        if total - offset < 8 {
            return Err(ContainerError::TruncatedPng);
        }
        let start: usize = offset + 8;
        let length: usize = read32(ByteOrder::Big, source, offset) as usize;
        if length > total - start || total - start - length < 4 {
            return Err(ContainerError::TruncatedPng);
        }
        let end: usize = start + length;
        let crc: u32 = crc32(
            slice_subrange(source.as_slice(), offset + 4, start),
            slice_subrange(source.as_slice(), start, end),
        );
        assert(source@.subrange(offset + 4, start as int) + source@.subrange(
            start as int,
            end as int,
        ) =~= source@.subrange(offset + 4, end as int));
        if crc != read32(ByteOrder::Big, source, end) {
            return Err(ContainerError::InvalidPng("chunk CRC mismatch"));
        }
        if is_marked(source, offset + 4, "IEND") {
            return if length == 0 {
                Ok(found)
            } else {
                Err(ContainerError::InvalidPng("IEND chunk is not empty"))
            };
        }
        note_text(&mut found, source, offset + 4, start, end);
        offset = end + 4;
    }
    Err(ContainerError::TruncatedPng)
}

/// The text of an international chunk behind its keyword, or the reason why there
/// is none: flags, a language and a translated keyword come before it.
pub open spec fn text_start(data: Seq<u8>) -> Result<int, ContainerError> {
    let language = byte_from(data, 0, 2);
    let keyword = byte_from(data, 0, language + 1);
    if data.len() < 2 {
        Err(ContainerError::InvalidPng("truncated iTXt chunk"))
    } else if language >= data.len() {
        Err(ContainerError::InvalidPng("truncated iTXt language tag"))
    } else if keyword >= data.len() || language + 1 >= data.len() {
        Err(ContainerError::InvalidPng("truncated iTXt translated keyword"))
    } else {
        Ok(keyword + 1)
    }
}

/// What an international chunk says behind its keyword.
pub open spec fn is_international_text(
    r: Result<Vec<u8>, ContainerError>,
    data: Seq<u8>,
    limit: u64,
) -> bool {
    match text_start(data) {
        Err(e) => r == Err::<Vec<u8>, ContainerError>(e),
        Ok(from) => if data[0] > 1 {
            r == Err::<Vec<u8>, ContainerError>(
                ContainerError::InvalidPng("invalid iTXt compression flag"),
            )
        } else if data[1] != 0 {
            r == Err::<Vec<u8>, ContainerError>(
                ContainerError::InvalidPng("unsupported iTXt compression method"),
            )
        } else if data[0] == 0 {
            r matches Ok(text) && text@ == data.skip(from)
        } else {
            match (r, inflated(data.skip(from), limit)) {
                (Ok(text), Ok(expected)) => text@ == expected,
                (Err(ContainerError::InvalidCompressedPngMetadata(message)), Err(expected)) =>
                    message@ == expected,
                _ => false,
            }
        },
    }
}

/// What an international chunk says behind its keyword, of which no more than a
/// limit is unpacked.
pub fn decode_itxt_text(data: &Vec<u8>, limit: u64) -> (r: Result<Vec<u8>, ContainerError>)
    ensures
        is_international_text(r, data@, limit),
{
    let total: usize = data.len();
    if total < 2 {
        return Err(ContainerError::InvalidPng("truncated iTXt chunk"));
    }
    let language: usize = find_byte(data, 0, 2);
    if language >= total {
        return Err(ContainerError::InvalidPng("truncated iTXt language tag"));
    }
    let keyword: usize = find_byte(data, 0, language + 1);
    if keyword >= total {
        return Err(ContainerError::InvalidPng("truncated iTXt translated keyword"));
    }
    let flag: u8 = data[0];
    let method: u8 = data[1];
    if flag > 1 {
        return Err(ContainerError::InvalidPng("invalid iTXt compression flag"));
    }
    if method != 0 {
        return Err(ContainerError::InvalidPng("unsupported iTXt compression method"));
    }
    let text = copy_range(data, keyword + 1, total);
    proof {
        assert(text@ =~= data@.skip(keyword + 1));
    }
    if flag == 0 {
        return Ok(text);
    }
    match inflate(text.as_slice(), limit) {
        Ok(bytes) => Ok(bytes),
        Err(message) => Err(ContainerError::InvalidCompressedPngMetadata(message)),
    }
}

/// What becomes of a text that is to be a card.
pub open spec fn is_png_card(r: Result<Vec<u8>, ContainerError>, payload: Seq<u8>) -> bool {
    let trimmed = trimmed_bytes(payload);
    if marks(trimmed, 0, "{"@) {
        r matches Ok(card) && card@ == trimmed
    } else {
        match (r, base64_bytes(trimmed)) {
            (Ok(card), Ok(expected)) => card@ == expected,
            (Err(ContainerError::InvalidBase64PngMetadata(message)), Err(expected)) => message@
                == expected,
            _ => false,
        }
    }
}

/// The card that a text is: JSON as it stands, or base64 of it.
pub fn decode_json_payload(payload: &Vec<u8>) -> (r: Result<Vec<u8>, ContainerError>)
    ensures
        is_png_card(r, payload@),
{
    let trimmed = trim_bytes(payload);
    if is_marked(&trimmed, 0, "{") {
        return Ok(trimmed);
    }
    match decode_base64_bytes(trimmed.as_slice()) {
        Ok(card) => Ok(card),
        Err(message) => Err(ContainerError::InvalidBase64PngMetadata(message)),
    }
}

/// What becomes of an international text that is to be a card.
pub open spec fn is_international_card(
    r: Result<Vec<u8>, ContainerError>,
    data: Seq<u8>,
    limit: u64,
) -> bool {
    exists|text: Result<Vec<u8>, ContainerError>|
        #[trigger] is_international_text(text, data, limit) && match text {
            Err(e) => r == Err::<Vec<u8>, ContainerError>(e),
            Ok(bytes) => is_png_card(r, bytes@),
        }
}

fn decode_international(data: &Vec<u8>, limit: u64) -> (r: Result<Vec<u8>, ContainerError>)
    ensures
        is_international_card(r, data@, limit),
{
    let text = decode_itxt_text(data, limit);
    let ghost read = text;
    proof {
        assert(is_international_text(read, data@, limit));
    }
    match text {
        Err(e) => Err(e),
        Ok(bytes) => decode_json_payload(&bytes),
    }
}

/// What becomes of a picture that is to hold a card: its card of the third
/// version counts before others, and an international text before a plain one.
pub open spec fn is_png_extraction(
    r: Result<Vec<u8>, ContainerError>,
    source: Seq<u8>,
    limit: u64,
) -> bool {
    if !marks(source, 0, PNG_SIGNATURE@) {
        r == Err::<Vec<u8>, ContainerError>(ContainerError::InvalidPng("invalid PNG signature"))
    } else {
        match texts_from(source, 8, TextsView { third: None, international: None, plain: None }) {
            Err(e) => r == Err::<Vec<u8>, ContainerError>(e),
            Ok(found) => match (found.third, found.international, found.plain) {
                (Some((from, to)), _, _) => is_international_card(
                    r,
                    source.subrange(from, to),
                    limit,
                ),
                (None, Some((from, to)), _) => is_international_card(
                    r,
                    source.subrange(from, to),
                    limit,
                ),
                (None, None, Some((from, to))) => is_png_card(r, source.subrange(from, to)),
                (None, None, None) => r == Err::<Vec<u8>, ContainerError>(
                    ContainerError::MissingPngMetadata,
                ),
            },
        }
    }
}

/// The card that a PNG picture holds. No more than a limit is unpacked.
pub fn extract_png_card(source: &Vec<u8>, limit: u64) -> (r: Result<Vec<u8>, ContainerError>)
    ensures
        is_png_extraction(r, source@, limit),
{
    proof {
        reveal_strlit("\u{89}PNG\r\n\u{1a}\n");
    }
    if !is_marked(source, 0, PNG_SIGNATURE) {
        return Err(ContainerError::InvalidPng("invalid PNG signature"));
    }
    let found = match find_texts(source) {
        Ok(found) => found,
        Err(e) => return Err(e),
    };
    if let Some((from, to)) = found.third {
        return decode_international(&copy_range(source, from, to), limit);
    }
    if let Some((from, to)) = found.international {
        return decode_international(&copy_range(source, from, to), limit);
    }
    match found.plain {
        Some((from, to)) => decode_json_payload(&copy_range(source, from, to)),
        None => Err(ContainerError::MissingPngMetadata),
    }
}

} // verus!

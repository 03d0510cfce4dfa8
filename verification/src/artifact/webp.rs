//! Character cards in WebP pictures.
use vstd::prelude::*;

use crate::artifact::exif::{ContainerError, exif_comment, extract_exif_user_comment};
use crate::artifact::octets::{
    ByteOrder, copy_range, is_marked, marks, number32, read32, trim_bytes, trimmed_bytes,
};
use crate::artifact::xmp::{extract_xmp_description, xmp_description};
use crate::artifact_codec::{base64_bytes, decode_base64_bytes};

verus! {

/// The bytes begin like a WebP picture.
pub open spec fn looks_like_webp(source: Seq<u8>) -> bool {
    marks(source, 0, "RIFF"@) && marks(source, 8, "WEBP"@)
}

/// Whether bytes begin like a WebP picture.
pub fn is_webp(source: &Vec<u8>) -> (r: bool)
    ensures
        r == looks_like_webp(source@),
{
    is_marked(source, 0, "RIFF") && is_marked(source, 8, "WEBP")
}

/// Where the metadata of a picture stand: the first chunk of each kind.
pub struct MetadataView {
    pub exif: Option<(int, int)>,
    pub xmp: Option<(int, int)>,
}

/// The metadata of a picture, with those of the chunk at a place where they are
/// the first of their kind.
pub open spec fn noted(found: MetadataView, source: Seq<u8>, offset: int, from: int, to: int) -> MetadataView {
    if marks(source, offset, "EXIF"@) && found.exif is None {
        MetadataView { exif: Some((from, to)), ..found }
    } else if marks(source, offset, "XMP "@) && found.xmp is None {
        MetadataView { xmp: Some((from, to)), ..found }
    } else {
        found
    }
}

/// The metadata of the chunks from a place on, behind those found before. A chunk
/// is a name, the number of its bytes, the bytes, and a zero where that number is
/// odd.
pub open spec fn chunks_from(source: Seq<u8>, offset: int, found: MetadataView) -> Result<
    MetadataView,
    ContainerError,
>
    decreases source.len() - offset,
{
    if offset < 0 || offset >= source.len() {
        Ok(found)
    } else {
        let start = offset + 8;
        let length = number32(ByteOrder::Little, source, offset + 4);
        let end = start + length;
        let next = end + length % 2;
        if start > usize::MAX {
            Err(ContainerError::InvalidWebp("chunk header offset overflow"))
        } else if start > source.len() {
            Err(ContainerError::InvalidWebp("truncated chunk header"))
        } else if end > usize::MAX {
            Err(ContainerError::InvalidWebp("chunk size overflow"))
        } else if next > usize::MAX {
            Err(ContainerError::InvalidWebp("chunk padding overflow"))
        } else if next > source.len() {
            Err(ContainerError::InvalidWebp("truncated chunk data"))
        } else if length % 2 == 1 && source[end] != 0 {
            Err(ContainerError::InvalidWebp("non-zero chunk padding byte"))
        } else {
            chunks_from(source, next, noted(found, source, offset, start, end))
        }
    }
}

/// Where the metadata of a picture stand.
struct Metadata {
    exif: Option<(usize, usize)>,
    xmp: Option<(usize, usize)>,
}

/// A range that may be absent, in numbers without limit.
pub open spec fn range_view(range: Option<(usize, usize)>) -> Option<(int, int)> {
    match range {
        Some((from, to)) => Some((from as int, to as int)),
        None => None,
    }
}

impl View for Metadata {
    type V = MetadataView;

    closed spec fn view(&self) -> MetadataView {
        MetadataView { exif: range_view(self.exif), xmp: range_view(self.xmp) }
    }
}

impl Metadata {
    /// The ranges lie within so many bytes.
    closed spec fn wf(self, total: int) -> bool {
        &&& self.exif matches Some((from, to)) ==> from <= to <= total
        &&& self.xmp matches Some((from, to)) ==> from <= to <= total
    }
}

fn find_metadata(source: &Vec<u8>) -> (r: Result<Metadata, ContainerError>)
    requires
        source@.len() >= 12,
    ensures
        match (r, chunks_from(source@, 12, MetadataView { exif: None, xmp: None })) {
            (Ok(found), Ok(expected)) => found@ == expected && found.wf(source@.len() as int),
            (Err(e), Err(expected)) => e == expected,
            _ => false,
        },
{
    let total: usize = source.len();
    let mut found = Metadata { exif: None, xmp: None };
    let mut offset: usize = 12;
    proof {
        reveal_strlit("EXIF");
        reveal_strlit("XMP ");
    }
    while offset < total
        invariant
            offset <= total,
            total == source@.len(),
            found.wf(total as int),
            chunks_from(source@, 12, MetadataView { exif: None, xmp: None }) == chunks_from(
                source@,
                offset as int,
                found@,
            ),
        decreases total - offset,
    {
        if offset > usize::MAX - 8 {
            return Err(ContainerError::InvalidWebp("chunk header offset overflow"));
        }
        let start: usize = offset + 8;
        if start > total {
            return Err(ContainerError::InvalidWebp("truncated chunk header"));
        }
        let length: usize = read32(ByteOrder::Little, source, offset + 4) as usize;
        if length > usize::MAX - start {
            return Err(ContainerError::InvalidWebp("chunk size overflow"));
        }
        let end: usize = start + length;
        let padding: usize = length % 2;
        if padding > usize::MAX - end {
            return Err(ContainerError::InvalidWebp("chunk padding overflow"));
        }
        let next: usize = end + padding;
        if next > total {
            return Err(ContainerError::InvalidWebp("truncated chunk data"));
        }
        if padding == 1 && source[end] != 0 {
            return Err(ContainerError::InvalidWebp("non-zero chunk padding byte"));
        }
        if is_marked(source, offset, "EXIF") && found.exif.is_none() {
            found.exif = Some((start, end));
        } else if is_marked(source, offset, "XMP ") && found.xmp.is_none() {
            found.xmp = Some((start, end));
        }
        offset = next;
    }
    Ok(found)
}

/// The card that metadata hold: JSON as it stands, or base64 of it.
pub open spec fn webp_payload(payload: Seq<u8>) -> Result<Seq<u8>, Seq<char>> {
    if marks(trimmed_bytes(payload), 0, "{"@) {
        Ok(trimmed_bytes(payload))
    } else {
        base64_bytes(trimmed_bytes(payload))
    }
}

/// What becomes of metadata that are to hold a card.
pub open spec fn is_webp_card(r: Result<Vec<u8>, ContainerError>, payload: Seq<u8>) -> bool {
    if trimmed_bytes(payload).len() == 0 {
        r == Err::<Vec<u8>, ContainerError>(ContainerError::EmptyWebpDescription)
    } else {
        match (r, webp_payload(payload)) {
            (Ok(card), Ok(expected)) => card@ == expected,
            (Err(ContainerError::InvalidBase64WebpMetadata(message)), Err(expected)) => message@
                == expected,
            _ => false,
        }
    }
}

/// The card that metadata hold.
pub fn decode_webp_json_payload(payload: &Vec<u8>) -> (r: Result<Vec<u8>, ContainerError>)
    ensures
        is_webp_card(r, payload@),
{
    let trimmed = trim_bytes(payload);
    if trimmed.len() == 0 {
        return Err(ContainerError::EmptyWebpDescription);
    }
    if is_marked(&trimmed, 0, "{") {
        return Ok(trimmed);
    }
    match decode_base64_bytes(trimmed.as_slice()) {
        Ok(card) => Ok(card),
        Err(message) => Err(ContainerError::InvalidBase64WebpMetadata(message)),
    }
}

/// Where a card may stand in a picture: in the comment of its Exif data, or else
/// in the description of its XMP data.
pub open spec fn webp_metadata(source: Seq<u8>, found: MetadataView) -> Result<
    Option<Seq<u8>>,
    ContainerError,
> {
    let comment = match found.exif {
        Some((from, to)) => exif_comment(source.subrange(from, to)),
        None => Ok(None),
    };
    match (comment, found.xmp) {
        (Ok(None), Some((from, to))) => xmp_description(source.subrange(from, to)),
        _ => comment,
    }
}

/// What becomes of a picture that is to hold a card.
pub open spec fn is_webp_extraction(r: Result<Vec<u8>, ContainerError>, source: Seq<u8>) -> bool {
    if !looks_like_webp(source) {
        r == Err::<Vec<u8>, ContainerError>(
            ContainerError::InvalidWebp("invalid RIFF WebP signature"),
        )
    } else if number32(ByteOrder::Little, source, 4) + 8 != source.len() {
        r == Err::<Vec<u8>, ContainerError>(
            ContainerError::InvalidWebp("RIFF size does not match input length"),
        )
    } else {
        match chunks_from(source, 12, MetadataView { exif: None, xmp: None }) {
            Err(e) => r == Err::<Vec<u8>, ContainerError>(e),
            Ok(found) => match webp_metadata(source, found) {
                Err(e) => r == Err::<Vec<u8>, ContainerError>(e),
                Ok(None) => r == Err::<Vec<u8>, ContainerError>(
                    ContainerError::MissingWebpMetadata,
                ),
                Ok(Some(payload)) => is_webp_card(r, payload),
            },
        }
    }
}

/// The card that a WebP picture holds.
pub fn extract_webp_card(source: &Vec<u8>) -> (r: Result<Vec<u8>, ContainerError>)
    ensures
        is_webp_extraction(r, source@),
{
    proof {
        reveal_strlit("RIFF");
        reveal_strlit("WEBP");
    }
    if !is_webp(source) {
        return Err(ContainerError::InvalidWebp("invalid RIFF WebP signature"));
    }
    let total: usize = source.len();
    let size: usize = read32(ByteOrder::Little, source, 4) as usize;
    if size > usize::MAX - 8 || size + 8 != total {
        return Err(ContainerError::InvalidWebp("RIFF size does not match input length"));
    }
    let found = match find_metadata(source) {
        Ok(found) => found,
        Err(e) => return Err(e),
    };
    if let Some((from, to)) = found.exif {
        match extract_exif_user_comment(&copy_range(source, from, to)) {
            Err(e) => return Err(e),
            Ok(Some(payload)) => return decode_webp_json_payload(&payload),
            Ok(None) => {},
        }
    }
    if let Some((from, to)) = found.xmp {
        match extract_xmp_description(&copy_range(source, from, to)) {
            Err(e) => return Err(e),
            Ok(Some(payload)) => return decode_webp_json_payload(&payload),
            Ok(None) => {},
        }
    }
    Err(ContainerError::MissingWebpMetadata)
}

} // verus!

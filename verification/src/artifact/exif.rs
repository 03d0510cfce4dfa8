//! Comments in the Exif data of pictures.
use vstd::prelude::*;
use vstd::utf8::encode_utf8;

use crate::artifact::octets::{
    ByteOrder, copy_range, is_marked, marks, number16, number32, read16, read32, trim_gaps,
    trimmed_range,
};
use crate::text::from_range;

verus! {

/// Why no card can be had from a file that should hold one.
#[derive(Clone, Debug)]
pub enum ContainerError {
    InvalidWebp(&'static str),
    InvalidWebpExif(&'static str),
    InvalidWebpXmp(&'static str),
    MissingWebpMetadata,
    EmptyWebpDescription,
    InvalidBase64WebpMetadata(String),
    InvalidPng(&'static str),
    TruncatedPng,
    MissingPngMetadata,
    InvalidCompressedPngMetadata(String),
    InvalidBase64PngMetadata(String),
    InvalidCharx(String),
    ReadCharx(String),
    MissingCharxCard,
    EncryptedCharx,
    UnsafeArchivePath(String),
    DuplicateArchivePath(String),
    UnsupportedArchiveEntry(String),
    CharxTooLarge { size: u64, limit: u64 },
}

/// `char::from_u32`: the character of a code, where the code is one of a
/// character.
#[verifier::external_body]
pub(crate) fn char_of(code: u32) -> (c: Option<char>)
    ensures
        match c {
            Some(character) => is_code(code as int) && character == code_char(code as int),
            None => !is_code(code as int),
        },
{
    char::from_u32(code)
}

/// A number that is the code of a character.
pub open spec fn is_code(code: int) -> bool {
    0 <= code < 0xD800 || 0xE000 <= code <= 0x10FFFF
}

/// The field of an entry of a directory, at most four bytes of it in the entry
/// itself and more of them elsewhere.
pub open spec fn exif_field(tiff: Seq<u8>, order: ByteOrder, entry: int, length: int) -> Result<
    Seq<u8>,
    ContainerError,
> {
    let offset = number32(order, tiff, entry + 8);
    if length <= 4 {
        Ok(tiff.subrange(entry + 8, entry + 8 + length))
    } else if offset + length > usize::MAX {
        Err(ContainerError::InvalidWebpExif("UserComment offset overflow"))
    } else if offset + length > tiff.len() {
        Err(ContainerError::InvalidWebpExif("truncated UserComment"))
    } else {
        Ok(tiff.subrange(offset, offset + length))
    }
}

fn read_field(tiff: &Vec<u8>, order: ByteOrder, entry: usize, length: usize) -> (r: Result<
    Vec<u8>,
    ContainerError,
>)
    requires
        entry + 12 <= tiff@.len(),
    ensures
        match (r, exif_field(tiff@, order, entry as int, length as int)) {
            (Ok(bytes), Ok(expected)) => bytes@ == expected,
            (Err(e), Err(expected)) => e == expected,
            _ => false,
        },
{
    proof {
        assert(tiff.len() == tiff@.len());
    }
    if length <= 4 {
        return Ok(copy_range(tiff, entry + 8, entry + 8 + length));
    }
    let offset: usize = read32(order, tiff, entry + 8) as usize;
    if length > usize::MAX - offset {
        return Err(ContainerError::InvalidWebpExif("UserComment offset overflow"));
    }
    if offset + length > tiff.len() {
        return Err(ContainerError::InvalidWebpExif("truncated UserComment"));
    }
    Ok(copy_range(tiff, offset, offset + length))
}

/// What a directory holds: the comment, and where a further directory is.
pub struct DirectoryView {
    pub comment: Option<Seq<u8>>,
    pub further: Option<int>,
}

/// What the entries of a directory from entry `i` on add to what was found
/// before.
pub open spec fn entries_from(
    tiff: Seq<u8>,
    order: ByteOrder,
    start: int,
    count: int,
    i: int,
    found: DirectoryView,
) -> Result<DirectoryView, ContainerError>
    decreases count - i,
{
    if i >= count {
        Ok(found)
    } else {
        let entry = start + 12 * i;
        let tag = number16(order, tiff, entry);
        let kind = number16(order, tiff, entry + 2);
        let length = number32(order, tiff, entry + 4);
        if tag == 0x8769 {
            if kind != 4 || length != 1 {
                Err(ContainerError::InvalidWebpExif("invalid ExifIFD pointer"))
            } else {
                entries_from(
                    tiff,
                    order,
                    start,
                    count,
                    i + 1,
                    DirectoryView { further: Some(number32(order, tiff, entry + 8)), ..found },
                )
            }
        } else if tag == 0x9286 && found.comment is None {
            if kind != 2 && kind != 7 {
                Err(ContainerError::InvalidWebpExif("unsupported UserComment field type"))
            } else {
                match exif_field(tiff, order, entry, length) {
                    Err(e) => Err(e),
                    Ok(bytes) => entries_from(
                        tiff,
                        order,
                        start,
                        count,
                        i + 1,
                        DirectoryView { comment: Some(bytes), ..found },
                    ),
                }
            }
        } else {
            entries_from(tiff, order, start, count, i + 1, found)
        }
    }
}

/// What the directory at a place holds.
pub open spec fn directory_at(tiff: Seq<u8>, order: ByteOrder, offset: int) -> Result<
    DirectoryView,
    ContainerError,
> {
    let start = offset + 2;
    let count = number16(order, tiff, offset);
    let end = start + 12 * count + 4;
    if start > usize::MAX {
        Err(ContainerError::InvalidWebpExif("IFD offset overflow"))
    } else if start > tiff.len() {
        Err(ContainerError::InvalidWebpExif("truncated IFD"))
    } else if end > usize::MAX {
        Err(ContainerError::InvalidWebpExif("IFD size overflow"))
    } else if end > tiff.len() {
        Err(ContainerError::InvalidWebpExif("truncated IFD entries"))
    } else {
        entries_from(
            tiff,
            order,
            start,
            count,
            0,
            DirectoryView { comment: None, further: None },
        )
    }
}

/// What a directory holds.
struct Directory {
    comment: Option<Vec<u8>>,
    further: Option<usize>,
}

impl View for Directory {
    type V = DirectoryView;

    closed spec fn view(&self) -> DirectoryView {
        DirectoryView {
            comment: match self.comment {
                Some(bytes) => Some(bytes@),
                None => None,
            },
            further: match self.further {
                Some(offset) => Some(offset as int),
                None => None,
            },
        }
    }
}

fn read_directory(tiff: &Vec<u8>, order: ByteOrder, offset: usize) -> (r: Result<
    Directory,
    ContainerError,
>)
    ensures
        match (r, directory_at(tiff@, order, offset as int)) {
            (Ok(directory), Ok(expected)) => directory@ == expected,
            (Err(e), Err(expected)) => e == expected,
            _ => false,
        },
{
    let total: usize = tiff.len();
    if offset > usize::MAX - 2 {
        return Err(ContainerError::InvalidWebpExif("IFD offset overflow"));
    }
    let start: usize = offset + 2;
    if start > total {
        return Err(ContainerError::InvalidWebpExif("truncated IFD"));
    }
    let count: usize = read16(order, tiff, offset) as usize;
    let size: usize = 12 * count + 4;
    if size > usize::MAX - start {
        return Err(ContainerError::InvalidWebpExif("IFD size overflow"));
    }
    if start + size > total {
        return Err(ContainerError::InvalidWebpExif("truncated IFD entries"));
    }
    let mut found = Directory { comment: None, further: None };
    let mut i: usize = 0;
    while i < count
        invariant
            i <= count,
            total == tiff@.len(),
            start + 12 * count + 4 <= total,
            directory_at(tiff@, order, offset as int) == entries_from(
                tiff@,
                order,
                start as int,
                count as int,
                i as int,
                found@,
            ),
        decreases count - i,
    {
        let entry: usize = start + 12 * i;
        let tag: u16 = read16(order, tiff, entry);
        let kind: u16 = read16(order, tiff, entry + 2);
        let length: usize = read32(order, tiff, entry + 4) as usize;
        if tag == 0x8769 {
            if kind != 4 || length != 1 {
                return Err(ContainerError::InvalidWebpExif("invalid ExifIFD pointer"));
            }
            found.further = Some(read32(order, tiff, entry + 8) as usize);
        } else if tag == 0x9286 && found.comment.is_none() {
            if kind != 2 && kind != 7 {
                return Err(
                    ContainerError::InvalidWebpExif("unsupported UserComment field type"),
                );
            }
            match read_field(tiff, order, entry, length) {
                Ok(bytes) => {
                    found.comment = Some(bytes);
                },
                Err(e) => return Err(e),
            }
        }
        i = i + 1;
    }
    Ok(found)
}

/// The character of a number that is the code of one.
pub open spec fn code_char(code: int) -> char {
    (code as u32) as char
}

/// The text of UTF-16 from a place on, behind what was read before: units of two
/// bytes, and pairs of units for characters beyond them.
pub open spec fn utf16_from(bytes: Seq<u8>, order: ByteOrder, i: int, read: Seq<char>) -> Option<
    Seq<char>,
>
    decreases bytes.len() - i,
{
    if i + 2 > bytes.len() {
        Some(read)
    } else {
        let unit = number16(order, bytes, i);
        let next = number16(order, bytes, i + 2);
        if is_code(unit) {
            utf16_from(bytes, order, i + 2, read.push(code_char(unit)))
        } else if unit < 0xDC00 && i + 4 <= bytes.len() && 0xDC00 <= next < 0xE000 {
            utf16_from(
                bytes,
                order,
                i + 4,
                read.push(code_char(0x10000 + (unit - 0xD800) * 0x400 + (next - 0xDC00))),
            )
        } else {
            None
        }
    }
}

fn read_utf16(bytes: &Vec<u8>, order: ByteOrder, from: usize) -> (text: Option<Vec<char>>)
    requires
        from <= bytes@.len(),
    ensures
        match (text, utf16_from(bytes@, order, from as int, Seq::empty())) {
            (Some(chars), Some(expected)) => chars@ == expected,
            (None, None) => true,
            _ => false,
        },
{
    let total: usize = bytes.len();
    let mut read: Vec<char> = Vec::new();
    let mut i: usize = from;
    while total - i >= 2
        invariant
            from <= i <= total,
            total == bytes@.len(),
            utf16_from(bytes@, order, from as int, Seq::empty()) == utf16_from(
                bytes@,
                order,
                i as int,
                read@,
            ),
        decreases total - i,
    {
        let unit: u32 = read16(order, bytes, i) as u32;
        match char_of(unit) {
            Some(c) => {
                proof {
                    assert(c == code_char(unit as int));
                }
                read.push(c);
                i = i + 2;
            },
            None => {
                if unit >= 0xDC00 || total - i < 4 {
                    return None;
                }
                let next: u32 = read16(order, bytes, i + 2) as u32;
                if next < 0xDC00 || next >= 0xE000 {
                    return None;
                }
                let code: u32 = 0x10000 + (unit - 0xD800) * 0x400 + (next - 0xDC00);
                match char_of(code) {
                    Some(c) => {
                        proof {
                            assert(c == code_char(code as int));
                        }
                        read.push(c);
                    },
                    None => return None,
                }
                i = i + 4;
            },
        }
    }
    Some(read)
}

/// A character that is dropped around a comment.
pub open spec fn is_padding(c: char) -> bool {
    c == '\0' || c == ' ' || c == '\t' || c == '\r' || c == '\n'
}

/// The first place of a text that holds no padding.
pub open spec fn padding_end(text: Seq<char>, i: int) -> int
    decreases text.len() - i,
{
    if i < 0 || i >= text.len() || !is_padding(text[i]) {
        i
    } else {
        padding_end(text, i + 1)
    }
}

/// The end of a text without the padding at its end, from a place on.
pub open spec fn padding_start(text: Seq<char>, from: int, to: int) -> int
    decreases to - from,
{
    if from >= to || !is_padding(text[to - 1]) {
        to
    } else {
        padding_start(text, from, to - 1)
    }
}

/// A text without the padding around it.
pub open spec fn unpadded(text: Seq<char>) -> Seq<char> {
    let from = padding_end(text, 0);
    text.subrange(from, padding_start(text, from, text.len() as int))
}

fn check_padding(c: char) -> (r: bool)
    ensures
        r == is_padding(c),
{
    c == '\0' || c == ' ' || c == '\t' || c == '\r' || c == '\n'
}

fn unpad(text: &Vec<char>) -> (r: String)
    ensures
        r@ == unpadded(text@),
{
    let total: usize = text.len();
    let mut from: usize = 0;
    while from < total && check_padding(text[from])
        invariant
            from <= total,
            total == text@.len(),
            padding_end(text@, 0) == padding_end(text@, from as int),
        decreases total - from,
    {
        from = from + 1;
    }
    let mut to: usize = total;
    while to > from && check_padding(text[to - 1])
        invariant
            from <= to <= total,
            total == text@.len(),
            padding_start(text@, from as int, total as int) == padding_start(
                text@,
                from as int,
                to as int,
            ),
        decreases to,
    {
        to = to - 1;
    }
    from_range(text, from, to)
}

/// The end of bytes without the zeros at their end, from a place on.
pub open spec fn zeros_start(bytes: Seq<u8>, from: int, to: int) -> int
    decreases to - from,
{
    if from >= to || bytes[to - 1] != 0 {
        to
    } else {
        zeros_start(bytes, from, to - 1)
    }
}

/// The first eight bytes are there and are zero.
pub open spec fn begins_empty(bytes: Seq<u8>) -> bool {
    bytes.len() >= 8 && forall|i: int| 0 <= i < 8 ==> #[trigger] bytes[i] == 0
}

/// What a comment says, by the character set that it names.
pub open spec fn comment_payload(comment: Seq<u8>, order: ByteOrder) -> Result<
    Seq<u8>,
    ContainerError,
> {
    if marks(comment, 0, "UNICODE\0"@) {
        if comment.len() % 2 != 0 {
            Err(ContainerError::InvalidWebpExif("odd-length Unicode UserComment"))
        } else {
            match utf16_from(comment, order, 8, Seq::empty()) {
                None => Err(ContainerError::InvalidWebpExif("invalid Unicode UserComment")),
                Some(text) => Ok(encode_utf8(unpadded(text))),
            }
        }
    } else if marks(comment, 0, "JIS\0\0\0\0\0"@) {
        Err(ContainerError::InvalidWebpExif("JIS UserComment encoding is unsupported"))
    } else {
        let from = if marks(comment, 0, "ASCII\0\0\0"@) || begins_empty(comment) {
            8
        } else {
            0
        };
        let range = trimmed_range(comment, from, zeros_start(comment, from, comment.len() as int));
        Ok(comment.subrange(range.0, range.1))
    }
}

fn check_empty_start(bytes: &Vec<u8>) -> (r: bool)
    ensures
        r == begins_empty(bytes@),
{
    if bytes.len() < 8 {
        return false;
    }
    let mut i: usize = 0;
    while i < 8
        invariant
            i <= 8 <= bytes@.len(),
            forall|j: int| 0 <= j < i ==> #[trigger] bytes@[j] == 0,
        decreases 8 - i,
    {
        if bytes[i] != 0 {
            return false;
        }
        i = i + 1;
    }
    true
}

fn decode_comment(comment: &Vec<u8>, order: ByteOrder) -> (r: Result<Vec<u8>, ContainerError>)
    ensures
        match (r, comment_payload(comment@, order)) {
            (Ok(payload), Ok(expected)) => payload@ == expected,
            (Err(e), Err(expected)) => e == expected,
            _ => false,
        },
{
    proof {
        reveal_strlit("UNICODE\0");
        reveal_strlit("ASCII\0\0\0");
    }
    let total: usize = comment.len();
    if is_marked(comment, 0, "UNICODE\0") {
        if total % 2 != 0 {
            return Err(ContainerError::InvalidWebpExif("odd-length Unicode UserComment"));
        }
        return match read_utf16(comment, order, 8) {
            None => Err(ContainerError::InvalidWebpExif("invalid Unicode UserComment")),
            Some(text) => {
                let shown = unpad(&text);
                Ok(to_bytes(shown.as_str()))
            },
        };
    }
    if is_marked(comment, 0, "JIS\0\0\0\0\0") {
        return Err(ContainerError::InvalidWebpExif("JIS UserComment encoding is unsupported"));
    }
    let from: usize = if is_marked(comment, 0, "ASCII\0\0\0") || check_empty_start(comment) {
        8
    } else {
        0
    };
    let mut to: usize = total;
    while to > from && comment[to - 1] == 0
        invariant
            from <= to <= total,
            total == comment@.len(),
            zeros_start(comment@, from as int, total as int) == zeros_start(
                comment@,
                from as int,
                to as int,
            ),
        decreases to,
    {
        to = to - 1;
    }
    let (start, end) = trim_gaps(comment, from, to);
    Ok(copy_range(comment, start, end))
}

/// The bytes of a text in UTF-8.
pub fn to_bytes(text: &str) -> (bytes: Vec<u8>)
    ensures
        bytes@ == encode_utf8(text@),
{
    let slice = text.as_bytes();
    let mut bytes: Vec<u8> = Vec::new();
    let mut i: usize = 0;
    while i < slice.len()
        invariant
            i <= slice@.len(),
            bytes@ == slice@.take(i as int),
        decreases slice@.len() - i,
    {
        bytes.push(slice[i]);
        i = i + 1;
        proof {
            assert(bytes@ =~= slice@.take(i as int));
        }
    }
    proof {
        assert(slice@.take(slice@.len() as int) =~= slice@);
    }
    bytes
}

/// The comment of TIFF data: that of the first directory, or else that of the
/// directory which the first one leads to.
pub open spec fn tiff_comment(tiff: Seq<u8>) -> Result<Option<Seq<u8>>, ContainerError> {
    if tiff.len() < 8 {
        Err(ContainerError::InvalidWebpExif("truncated TIFF header"))
    } else if marks(tiff, 0, "II"@) {
        ordered_comment(tiff, ByteOrder::Little)
    } else if marks(tiff, 0, "MM"@) {
        ordered_comment(tiff, ByteOrder::Big)
    } else {
        Err(ContainerError::InvalidWebpExif("invalid TIFF byte order"))
    }
}

/// The comment of TIFF data whose numbers stand in an order.
pub open spec fn ordered_comment(tiff: Seq<u8>, order: ByteOrder) -> Result<
    Option<Seq<u8>>,
    ContainerError,
> {
    if number16(order, tiff, 2) != 42 {
        Err(ContainerError::InvalidWebpExif("invalid TIFF marker"))
    } else {
        match directory_at(tiff, order, number32(order, tiff, 4)) {
            Err(e) => Err(e),
            Ok(first) => match (first.comment, first.further) {
                (Some(comment), _) => decoded_comment(comment, order),
                (None, None) => Ok(None),
                (None, Some(further)) => match directory_at(tiff, order, further) {
                    Err(e) => Err(e),
                    Ok(second) => match second.comment {
                        Some(comment) => decoded_comment(comment, order),
                        None => Ok(None),
                    },
                },
            },
        }
    }
}

/// What a comment that was found says.
pub open spec fn decoded_comment(comment: Seq<u8>, order: ByteOrder) -> Result<
    Option<Seq<u8>>,
    ContainerError,
> {
    match comment_payload(comment, order) {
        Ok(payload) => Ok(Some(payload)),
        Err(e) => Err(e),
    }
}

/// The comment of Exif data, with or without the name of the format before it.
pub open spec fn exif_comment(exif: Seq<u8>) -> Result<Option<Seq<u8>>, ContainerError> {
    if marks(exif, 0, "Exif\0\0"@) {
        tiff_comment(exif.skip(6))
    } else {
        tiff_comment(exif)
    }
}

/// Something that is found, or not, or is at fault.
pub open spec fn finding(r: Result<Option<Vec<u8>>, ContainerError>) -> Result<
    Option<Seq<u8>>,
    ContainerError,
> {
    match r {
        Ok(Some(bytes)) => Ok(Some(bytes@)),
        Ok(None) => Ok(None),
        Err(e) => Err(e),
    }
}

fn decode_found(comment: &Vec<u8>, order: ByteOrder) -> (r: Result<
    Option<Vec<u8>>,
    ContainerError,
>)
    ensures
        finding(r) == decoded_comment(comment@, order),
{
    match decode_comment(comment, order) {
        Ok(payload) => Ok(Some(payload)),
        Err(e) => Err(e),
    }
}

fn extract_ordered(tiff: &Vec<u8>, order: ByteOrder) -> (r: Result<
    Option<Vec<u8>>,
    ContainerError,
>)
    requires
        tiff@.len() >= 8,
    ensures
        finding(r) == ordered_comment(tiff@, order),
{
    if read16(order, tiff, 2) != 42 {
        return Err(ContainerError::InvalidWebpExif("invalid TIFF marker"));
    }
    let first = match read_directory(tiff, order, read32(order, tiff, 4) as usize) {
        Ok(directory) => directory,
        Err(e) => return Err(e),
    };
    if let Some(comment) = &first.comment {
        return decode_found(comment, order);
    }
    match first.further {
        None => Ok(None),
        Some(further) => match read_directory(tiff, order, further) {
            Err(e) => Err(e),
            Ok(second) => match &second.comment {
                Some(comment) => decode_found(comment, order),
                None => Ok(None),
            },
        },
    }
}

/// The comment of Exif data.
pub fn extract_exif_user_comment(exif: &Vec<u8>) -> (r: Result<Option<Vec<u8>>, ContainerError>)
    ensures
        finding(r) == exif_comment(exif@),
{
    proof {
        reveal_strlit("Exif\0\0");
    }
    let total: usize = exif.len();
    let from: usize = if is_marked(exif, 0, "Exif\0\0") {
        6
    } else {
        0
    };
    let tiff = copy_range(exif, from, total);
    proof {
        assert(exif@.subrange(0, total as int) =~= exif@);
        assert(exif@.subrange(6, total as int) =~= exif@.skip(6)) by {
            if total < 6 {
                assert(from == 0);
            }
        }
    }
    if tiff.len() < 8 {
        return Err(ContainerError::InvalidWebpExif("truncated TIFF header"));
    }
    if is_marked(&tiff, 0, "II") {
        extract_ordered(&tiff, ByteOrder::Little)
    } else if is_marked(&tiff, 0, "MM") {
        extract_ordered(&tiff, ByteOrder::Big)
    } else {
        Err(ContainerError::InvalidWebpExif("invalid TIFF byte order"))
    }
}

} // verus!

//! Descriptions in the XMP data of pictures.
use vstd::prelude::*;
use vstd::utf8::{decode_utf8, encode_utf8, valid_utf8};

use crate::artifact::exif::{char_of, code_char, ContainerError, finding, is_code, to_bytes};
use crate::artifact::octets::{
    byte_from, check_gap, copy_range, find_byte, find_gap_end, find_mark, gap_end, is_gap,
    is_marked, lemma_mark_from, mark_from, marks, trim_bytes, trim_gaps, trimmed_bytes,
    trimmed_range,
};
use crate::macros::replies::{behind_sign, numeral_value, read_unsigned};
use crate::text::{
    self, begins_with, find_char, from_range, next_char, starts_with, text_from_utf8, to_chars,
};

verus! {

/// Behind a section of characters or a comment that begins at a place, if one
/// does.
pub open spec fn beyond_special(xml: Seq<u8>, start: int) -> Result<Option<int>, ContainerError> {
    if marks(xml, start, "<![CDATA["@) {
        match mark_from(xml, "]]>"@, start + 9) {
            None => Err(ContainerError::InvalidWebpXmp("unterminated CDATA section")),
            Some(end) => Ok(Some(end + 3)),
        }
    } else if marks(xml, start, "<!--"@) {
        match mark_from(xml, "-->"@, start + 4) {
            None => Err(ContainerError::InvalidWebpXmp("unterminated XML comment")),
            Some(end) => Ok(Some(end + 3)),
        }
    } else {
        Ok(None)
    }
}

/// What begins at a place ends behind it.
pub proof fn lemma_beyond_special(xml: Seq<u8>, start: int)
    ensures
        beyond_special(xml, start) matches Ok(Some(next)) ==> start + 3 < next <= xml.len(),
{
    reveal_strlit("<![CDATA[");
    reveal_strlit("]]>");
    reveal_strlit("<!--");
    reveal_strlit("-->");
    if marks(xml, start, "<![CDATA["@) {
        lemma_mark_from(xml, "]]>"@, start + 9);
    } else if marks(xml, start, "<!--"@) {
        lemma_mark_from(xml, "-->"@, start + 4);
    }
}

fn skip_special(xml: &Vec<u8>, start: usize) -> (r: Result<Option<usize>, ContainerError>)
    ensures
        match (r, beyond_special(xml@, start as int)) {
            (Ok(Some(next)), Ok(Some(expected))) => next == expected && start + 3 < next
                <= xml@.len(),
            (Ok(None), Ok(None)) => true,
            (Err(e), Err(expected)) => e == expected,
            _ => false,
        },
{
    proof {
        reveal_strlit("<![CDATA[");
        reveal_strlit("]]>");
        reveal_strlit("<!--");
        reveal_strlit("-->");
        assert(xml.len() == xml@.len());
    }
    if is_marked(xml, start, "<![CDATA[") {
        match find_mark(xml, "]]>", start + 9) {
            None => Err(ContainerError::InvalidWebpXmp("unterminated CDATA section")),
            Some(end) => Ok(Some(end + 3)),
        }
    } else if is_marked(xml, start, "<!--") {
        match find_mark(xml, "-->", start + 4) {
            None => Err(ContainerError::InvalidWebpXmp("unterminated XML comment")),
            Some(end) => Ok(Some(end + 3)),
        }
    } else {
        Ok(None)
    }
}

/// The name of a tag stands at a place and ends there.
pub open spec fn is_named(xml: Seq<u8>, at: int, name: Seq<char>) -> bool {
    let after = at + name.len();
    marks(xml, at, name) && after < xml.len() && (is_gap(xml[after]) || xml[after] == 47
        || xml[after] == 62)
}

fn check_named(xml: &Vec<u8>, at: usize, name: &str, length: usize) -> (r: bool)
    requires
        length == name@.len(),
    ensures
        r == is_named(xml@, at as int, name@),
{
    proof {
        assert(xml.len() == xml@.len());
    }
    if !is_marked(xml, at, name) {
        return false;
    }
    let after: usize = at + length;
    after < xml.len() && (check_gap(xml[after]) || xml[after] == 47 || xml[after] == 62)
}

/// The end of a tag from a place on, where a quotation may be open.
pub open spec fn tag_end_from(xml: Seq<u8>, i: int, quote: Option<u8>) -> Result<
    int,
    ContainerError,
>
    decreases xml.len() - i,
{
    if i < 0 || i >= xml.len() {
        Err(ContainerError::InvalidWebpXmp("unterminated XML tag"))
    } else {
        match quote {
            Some(open) => if xml[i] == open {
                tag_end_from(xml, i + 1, None)
            } else {
                tag_end_from(xml, i + 1, quote)
            },
            None => if xml[i] == 39 || xml[i] == 34 {
                tag_end_from(xml, i + 1, Some(xml[i]))
            } else if xml[i] == 62 {
                Ok(i)
            } else {
                tag_end_from(xml, i + 1, None)
            },
        }
    }
}

/// A tag ends behind the place searched from.
pub proof fn lemma_tag_end(xml: Seq<u8>, i: int, quote: Option<u8>)
    ensures
        tag_end_from(xml, i, quote) matches Ok(end) ==> i <= end < xml.len(),
    decreases xml.len() - i,
{
    if 0 <= i < xml.len() {
        lemma_tag_end(xml, i + 1, None);
        lemma_tag_end(xml, i + 1, quote);
        lemma_tag_end(xml, i + 1, Some(xml[i]));
    }
}

fn find_xml_tag_end(xml: &Vec<u8>, start: usize) -> (r: Result<usize, ContainerError>)
    ensures
        match (r, tag_end_from(xml@, start as int, None)) {
            (Ok(end), Ok(expected)) => end == expected && start <= end < xml@.len(),
            (Err(e), Err(expected)) => e == expected,
            _ => false,
        },
{
    let mut quote: Option<u8> = None;
    let mut i: usize = start;
    while i < xml.len()
        invariant
            start <= i,
            tag_end_from(xml@, start as int, None) == tag_end_from(xml@, i as int, quote),
        decreases xml@.len() - i,
    {
        let byte: u8 = xml[i];
        match quote {
            Some(open) => {
                if byte == open {
                    quote = None;
                }
            },
            None => {
                if byte == 39 || byte == 34 {
                    quote = Some(byte);
                } else if byte == 62 {
                    return Ok(i);
                }
            },
        }
        i = i + 1;
    }
    Err(ContainerError::InvalidWebpXmp("unterminated XML tag"))
}

/// A tag that closes an element of a name stands at a place.
pub open spec fn closes(xml: Seq<u8>, start: int, name: Seq<char>) -> bool {
    let after = start + 2 + name.len();
    let end = byte_from(xml, 62, after);
    &&& marks(xml, start, "</"@)
    &&& marks(xml, start + 2, name)
    &&& end < xml.len()
    &&& gap_end(xml, after, end) == end
}

/// The first tag from a place on that closes an element of a name.
pub open spec fn close_from(xml: Seq<u8>, offset: int, name: Seq<char>) -> Result<
    int,
    ContainerError,
>
    decreases xml.len() - offset,
{
    let start = byte_from(xml, 60, offset);
    if offset < 0 || offset >= xml.len() || start >= xml.len() || start < offset {
        Err(ContainerError::InvalidWebpXmp("description element is not closed"))
    } else {
        match beyond_special(xml, start) {
            Err(e) => Err(e),
            Ok(Some(next)) => {
                proof {
                    lemma_beyond_special(xml, start);
                }
                close_from(xml, next, name)
            },
            Ok(None) => if closes(xml, start, name) {
                Ok(start)
            } else {
                close_from(xml, start + 1, name)
            },
        }
    }
}

fn check_close(xml: &Vec<u8>, start: usize, name: &str, length: usize) -> (r: bool)
    requires
        start < xml@.len(),
        length == name@.len(),
    ensures
        r == closes(xml@, start as int, name@),
{
    proof {
        reveal_strlit("</");
        assert(xml.len() == xml@.len());
    }
    if !is_marked(xml, start, "</") || !is_marked(xml, start + 2, name) {
        return false;
    }
    let after: usize = start + 2 + length;
    let end: usize = find_byte(xml, 62, after);
    if end >= xml.len() {
        return false;
    }
    find_gap_end(xml, after, end) == end
}

fn find_xml_close(xml: &Vec<u8>, from: usize, name: &str, length: usize) -> (r: Result<
    usize,
    ContainerError,
>)
    requires
        from <= xml@.len(),
        length == name@.len(),
    ensures
        match (r, close_from(xml@, from as int, name@)) {
            (Ok(at), Ok(expected)) => at == expected && from <= at < xml@.len(),
            (Err(e), Err(expected)) => e == expected,
            _ => false,
        },
{
    let mut offset: usize = from;
    while offset < xml.len()
        invariant
            from <= offset <= xml@.len(),
            length == name@.len(),
            close_from(xml@, from as int, name@) == close_from(xml@, offset as int, name@),
        decreases xml@.len() - offset,
    {
        let start: usize = find_byte(xml, 60, offset);
        if start >= xml.len() {
            return Err(ContainerError::InvalidWebpXmp("description element is not closed"));
        }
        match skip_special(xml, start) {
            Err(e) => return Err(e),
            Ok(Some(next)) => {
                offset = next;
            },
            Ok(None) => {
                if check_close(xml, start, name, length) {
                    return Ok(start);
                }
                offset = start + 1;
            },
        }
    }
    Err(ContainerError::InvalidWebpXmp("description element is not closed"))
}

/// An element: where its content begins and ends, or that it has none.
pub enum Element {
    Empty,
    Holding { from: int, to: int },
}

/// A tag that closes itself: a slash stands at its end.
pub open spec fn closes_itself(xml: Seq<u8>, from: int, to: int) -> bool {
    let range = trimmed_range(xml, from, to);
    range.0 < range.1 && xml[range.1 - 1] == 47
}

/// The element whose name ends at a place.
pub open spec fn element_at(xml: Seq<u8>, after: int, name: Seq<char>) -> Result<
    Element,
    ContainerError,
> {
    match tag_end_from(xml, after, None) {
        Err(e) => Err(e),
        Ok(end) => if closes_itself(xml, after, end) {
            Ok(Element::Empty)
        } else {
            match close_from(xml, end + 1, name) {
                Err(e) => Err(e),
                Ok(to) => Ok(Element::Holding { from: end + 1, to }),
            }
        },
    }
}

/// The first element from a place on that has one of two names.
pub open spec fn element_from(
    xml: Seq<u8>,
    offset: int,
    name: Seq<char>,
    other: Seq<char>,
) -> Result<Option<Element>, ContainerError>
    decreases xml.len() - offset,
{
    let start = byte_from(xml, 60, offset);
    if offset < 0 || offset >= xml.len() || start >= xml.len() || start < offset {
        Ok(None)
    } else {
        match beyond_special(xml, start) {
            Err(e) => Err(e),
            Ok(Some(next)) => {
                proof {
                    lemma_beyond_special(xml, start);
                }
                element_from(xml, next, name, other)
            },
            Ok(None) => if is_named(xml, start + 1, name) {
                found_element(element_at(xml, start + 1 + name.len(), name))
            } else if is_named(xml, start + 1, other) {
                found_element(element_at(xml, start + 1 + other.len(), other))
            } else {
                element_from(xml, start + 1, name, other)
            },
        }
    }
}

/// An element that was found.
pub open spec fn found_element(element: Result<Element, ContainerError>) -> Result<
    Option<Element>,
    ContainerError,
> {
    match element {
        Ok(found) => Ok(Some(found)),
        Err(e) => Err(e),
    }
}

/// The content of an element that was found, or that it has none.
enum FoundElement {
    Empty,
    Holding(usize, usize),
}

impl View for FoundElement {
    type V = Element;

    closed spec fn view(&self) -> Element {
        match *self {
            FoundElement::Empty => Element::Empty,
            FoundElement::Holding(from, to) => Element::Holding { from: from as int, to: to as int },
        }
    }
}

fn read_element(xml: &Vec<u8>, after: usize, name: &str, length: usize) -> (r: Result<
    FoundElement,
    ContainerError,
>)
    requires
        after < xml@.len(),
        length == name@.len(),
    ensures
        match (r, element_at(xml@, after as int, name@)) {
            (Ok(found), Ok(expected)) => found@ == expected && (found matches
                FoundElement::Holding(from, to) ==> from <= to <= xml@.len()),
            (Err(e), Err(expected)) => e == expected,
            _ => false,
        },
{
    let end: usize = match find_xml_tag_end(xml, after) {
        Ok(end) => end,
        Err(e) => return Err(e),
    };
    proof {
        assert(xml.len() == xml@.len());
    }
    let (from, to) = trim_gaps(xml, after, end);
    if from < to && xml[to - 1] == 47 {
        return Ok(FoundElement::Empty);
    }
    match find_xml_close(xml, end + 1, name, length) {
        Ok(close) => Ok(FoundElement::Holding(end + 1, close)),
        Err(e) => Err(e),
    }
}

fn find_xml_element(
    xml: &Vec<u8>,
    name: &str,
    length: usize,
    other: &str,
    other_length: usize,
) -> (r: Result<Option<FoundElement>, ContainerError>)
    requires
        length == name@.len(),
        other_length == other@.len(),
    ensures
        match (r, element_from(xml@, 0, name@, other@)) {
            (Ok(Some(found)), Ok(Some(expected))) => found@ == expected && (found matches
                FoundElement::Holding(from, to) ==> from <= to <= xml@.len()),
            (Ok(None), Ok(None)) => true,
            (Err(e), Err(expected)) => e == expected,
            _ => false,
        },
{
    let mut offset: usize = 0;
    while offset < xml.len()
        invariant
            offset <= xml@.len(),
            length == name@.len(),
            other_length == other@.len(),
            element_from(xml@, 0, name@, other@) == element_from(
                xml@,
                offset as int,
                name@,
                other@,
            ),
        decreases xml@.len() - offset,
    {
        let start: usize = find_byte(xml, 60, offset);
        if start >= xml.len() {
            return Ok(None);
        }
        match skip_special(xml, start) {
            Err(e) => return Err(e),
            Ok(Some(next)) => {
                offset = next;
            },
            Ok(None) => {
                if check_named(xml, start + 1, name, length) {
                    return match read_element(xml, start + 1 + length, name, length) {
                        Ok(found) => Ok(Some(found)),
                        Err(e) => Err(e),
                    };
                }
                if check_named(xml, start + 1, other, other_length) {
                    return match read_element(
                        xml,
                        start + 1 + other_length,
                        other,
                        other_length,
                    ) {
                        Ok(found) => Ok(Some(found)),
                        Err(e) => Err(e),
                    };
                }
                offset = start + 1;
            },
        }
    }
    Ok(None)
}

/// The value of a hexadecimal digit.
pub open spec fn hex_digit(c: char) -> Option<int> {
    if '0' as u32 <= c as u32 <= '9' as u32 {
        Some(c as u32 - '0' as u32)
    } else if 'a' as u32 <= c as u32 <= 'f' as u32 {
        Some(c as u32 - 'a' as u32 + 10)
    } else if 'A' as u32 <= c as u32 <= 'F' as u32 {
        Some(c as u32 - 'A' as u32 + 10)
    } else {
        None
    }
}

/// The number of hexadecimal digits from place `i` on, behind the number of
/// those before, where no number on the way is too large for 32 bits.
pub open spec fn hex_from(digits: Seq<char>, i: int, value: int) -> Option<int>
    decreases digits.len() - i,
{
    if i < 0 || i >= digits.len() {
        Some(value)
    } else {
        match hex_digit(digits[i]) {
            None => None,
            Some(digit) => if value * 16 + digit > u32::MAX {
                None
            } else {
                hex_from(digits, i + 1, value * 16 + digit)
            },
        }
    }
}

/// The number of a hexadecimal numeral of 32 bits: digits behind a plus that may
/// be there, at least one.
pub open spec fn hex_value(numeral: Seq<char>) -> Option<int> {
    let digits = behind_sign(numeral, false);
    if digits.len() == 0 {
        None
    } else {
        hex_from(digits, 0, 0)
    }
}

fn read_hex_digit(c: char) -> (digit: Option<u32>)
    ensures
        match (digit, hex_digit(c)) {
            (Some(d), Some(expected)) => d == expected && d < 16,
            (None, None) => true,
            _ => false,
        },
{
    let code: u32 = c as u32;
    if code >= 48 && code <= 57 {
        Some(code - 48)
    } else if code >= 97 && code <= 102 {
        Some(code - 97 + 10)
    } else if code >= 65 && code <= 70 {
        Some(code - 65 + 10)
    } else {
        None
    }
}

fn read_hex(numeral: &Vec<char>) -> (value: Option<u32>)
    ensures
        match (value, hex_value(numeral@)) {
            (Some(v), Some(expected)) => v == expected,
            (None, None) => true,
            _ => false,
        },
{
    let from: usize = if numeral.len() > 0 && numeral[0] == '+' {
        1
    } else {
        0
    };
    let ghost digits = behind_sign(numeral@, false);
    proof {
        assert(digits =~= numeral@.skip(from as int));
    }
    if numeral.len() == from {
        return None;
    }
    let mut value: u32 = 0;
    let mut i: usize = from;
    while i < numeral.len()
        invariant
            from <= i <= numeral@.len(),
            from < numeral@.len(),
            digits == numeral@.skip(from as int),
            digits == behind_sign(numeral@, false),
            hex_from(digits, 0, 0) == hex_from(digits, i - from, value as int),
        decreases numeral@.len() - i,
    {
        proof {
            assert(digits[i - from] == numeral@[i as int]);
        }
        match read_hex_digit(numeral[i]) {
            None => return None,
            Some(digit) => {
                let wide: u64 = value as u64 * 16 + digit as u64;
                if wide > 0xFFFF_FFFF {
                    return None;
                }
                value = wide as u32;
            },
        }
        i = i + 1;
    }
    Some(value)
}

/// The character that a number stands for, where it is the code of one.
pub open spec fn coded(value: Option<int>) -> Result<char, ContainerError> {
    if value is Some && is_code(value->0) {
        Ok(code_char(value->0))
    } else {
        Err(ContainerError::InvalidWebpXmp("invalid XML entity"))
    }
}

/// The character that an entity stands for.
pub open spec fn entity_char(entity: Seq<char>) -> Result<char, ContainerError> {
    if entity == "amp"@ {
        Ok('&')
    } else if entity == "lt"@ {
        Ok('<')
    } else if entity == "gt"@ {
        Ok('>')
    } else if entity == "quot"@ {
        Ok('"')
    } else if entity == "apos"@ {
        Ok('\'')
    } else if begins_with(entity, "#x"@) {
        coded(hex_value(entity.skip(2)))
    } else if begins_with(entity, "#"@) {
        coded(numeral_value(entity.skip(1), false))
    } else {
        Err(ContainerError::InvalidWebpXmp("unknown XML entity"))
    }
}

fn make_char(code: Option<u32>) -> (r: Result<char, ContainerError>)
    ensures
        r == coded(
            match code {
                Some(n) => Some(n as int),
                None => None,
            },
        ),
{
    match code {
        None => Err(ContainerError::InvalidWebpXmp("invalid XML entity")),
        Some(n) => match char_of(n) {
            Some(c) => Ok(c),
            None => Err(ContainerError::InvalidWebpXmp("invalid XML entity")),
        },
    }
}

fn read_entity(text: &Vec<char>, from: usize, to: usize) -> (r: Result<char, ContainerError>)
    requires
        from <= to <= text@.len(),
    ensures
        r == entity_char(text@.subrange(from as int, to as int)),
{
    let entity = from_range(text, from, to);
    let ghost whole = text@.subrange(from as int, to as int);
    proof {
        reveal_strlit("#x");
        reveal_strlit("#");
    }
    if text::same(entity.as_str(), "amp") {
        return Ok('&');
    }
    if text::same(entity.as_str(), "lt") {
        return Ok('<');
    }
    if text::same(entity.as_str(), "gt") {
        return Ok('>');
    }
    if text::same(entity.as_str(), "quot") {
        return Ok('"');
    }
    if text::same(entity.as_str(), "apos") {
        return Ok('\'');
    }
    if starts_with(entity.as_str(), "#x") {
        let digits = to_chars(from_range(text, from + 2, to).as_str());
        proof {
            assert(digits@ =~= whole.skip(2));
        }
        return make_char(read_hex(&digits));
    }
    if starts_with(entity.as_str(), "#") {
        let numeral = from_range(text, from + 1, to);
        proof {
            assert(numeral@ =~= whole.skip(1));
        }
        let code: Option<u32> = match read_unsigned(numeral.as_str(), 0xFFFF_FFFF) {
            Some(n) => Some(n as u32),
            None => None,
        };
        return make_char(code);
    }
    Err(ContainerError::InvalidWebpXmp("unknown XML entity"))
}

/// A text from place `i` on with the characters that its entities stand for,
/// behind what was read before.
pub open spec fn unescaped_from(text: Seq<char>, i: int, read: Seq<char>) -> Result<
    Seq<char>,
    ContainerError,
>
    decreases text.len() - i,
{
    let start = next_char(text, '&', i);
    let end = next_char(text, ';', start + 1);
    if i < 0 || i >= text.len() || start >= text.len() || start < i {
        Ok(read + text.skip(i))
    } else if end >= text.len() || end <= start {
        Err(ContainerError::InvalidWebpXmp("unterminated XML entity"))
    } else {
        match entity_char(text.subrange(start + 1, end)) {
            Err(e) => Err(e),
            Ok(c) => unescaped_from(text, end + 1, (read + text.subrange(i, start)).push(c)),
        }
    }
}

/// What some bytes of XML say: they are a text in UTF-8 with entities.
pub open spec fn unescaped(bytes: Seq<u8>) -> Result<Seq<u8>, ContainerError> {
    if !valid_utf8(bytes) {
        Err(ContainerError::InvalidWebpXmp("XMP text is not UTF-8"))
    } else {
        match unescaped_from(decode_utf8(bytes), 0, Seq::empty()) {
            Ok(text) => Ok(encode_utf8(text)),
            Err(e) => Err(e),
        }
    }
}

fn append_range(target: &mut String, text: &Vec<char>, from: usize, to: usize)
    requires
        from <= to <= text@.len(),
    ensures
        final(target)@ == old(target)@ + text@.subrange(from as int, to as int),
{
    target.push_str(from_range(text, from, to).as_str());
}

fn unescape_text(text: &Vec<char>) -> (r: Result<String, ContainerError>)
    ensures
        match (r, unescaped_from(text@, 0, Seq::empty())) {
            (Ok(read), Ok(expected)) => read@ == expected,
            (Err(e), Err(expected)) => e == expected,
            _ => false,
        },
{
    let total: usize = text.len();
    let mut read = String::new();
    let mut i: usize = 0;
    while i < total
        invariant
            i <= total,
            total == text@.len(),
            unescaped_from(text@, 0, Seq::empty()) == unescaped_from(text@, i as int, read@),
        decreases total - i,
    {
        let start: usize = find_char(text, '&', i);
        if start >= total {
            append_range(&mut read, text, i, total);
            proof {
                assert(text@.subrange(i as int, total as int) =~= text@.skip(i as int));
            }
            return Ok(read);
        }
        let end: usize = find_char(text, ';', start + 1);
        if end >= total {
            return Err(ContainerError::InvalidWebpXmp("unterminated XML entity"));
        }
        match read_entity(text, start + 1, end) {
            Err(e) => return Err(e),
            Ok(c) => {
                append_range(&mut read, text, i, start);
                read.push(c);
            },
        }
        i = end + 1;
    }
    proof {
        assert(read@ + text@.skip(i as int) =~= read@);
    }
    Ok(read)
}

fn unescape(bytes: Vec<u8>) -> (r: Result<Vec<u8>, ContainerError>)
    ensures
        match (r, unescaped(bytes@)) {
            (Ok(read), Ok(expected)) => read@ == expected,
            (Err(e), Err(expected)) => e == expected,
            _ => false,
        },
{
    match text_from_utf8(bytes) {
        None => Err(ContainerError::InvalidWebpXmp("XMP text is not UTF-8")),
        Some(text) => match unescape_text(&to_chars(text.as_str())) {
            Ok(read) => Ok(to_bytes(read.as_str())),
            Err(e) => Err(e),
        },
    }
}

/// What the content of an element says from a place on, behind what was read
/// before: its text without tags and comments, with entities resolved outside
/// sections of characters.
pub open spec fn content_from(xml: Seq<u8>, offset: int, read: Seq<u8>) -> Result<
    Seq<u8>,
    ContainerError,
>
    decreases xml.len() - offset,
{
    let start = byte_from(xml, 60, offset);
    if offset < 0 || offset >= xml.len() || start < offset {
        Ok(read)
    } else {
        match unescaped(xml.subrange(offset, start)) {
            Err(e) => Err(e),
            Ok(text) => if start >= xml.len() {
                Ok(read + text)
            } else {
                match beyond_special(xml, start) {
                    Err(e) => Err(e),
                    Ok(Some(next)) => {
                        proof {
                            lemma_beyond_special(xml, start);
                        }
                        content_from(xml, next, read + text + section_text(xml, start, next))
                    },
                    Ok(None) => match tag_end_from(xml, start + 1, None) {
                        Err(e) => Err(e),
                        Ok(end) => {
                            proof {
                                lemma_tag_end(xml, start + 1, None);
                            }
                            content_from(xml, end + 1, read + text)
                        },
                    },
                }
            },
        }
    }
}

/// The characters of a section that ends before a place. A comment has none.
pub open spec fn section_text(xml: Seq<u8>, start: int, next: int) -> Seq<u8> {
    if marks(xml, start, "<![CDATA["@) {
        xml.subrange(start + 9, next - 3)
    } else {
        Seq::empty()
    }
}

proof fn lemma_section(xml: Seq<u8>, start: int)
    ensures
        beyond_special(xml, start) matches Ok(Some(next)) ==> marks(xml, start, "<![CDATA["@)
            ==> start + 9 <= next - 3,
{
    reveal_strlit("<![CDATA[");
    reveal_strlit("]]>");
    if marks(xml, start, "<![CDATA["@) {
        lemma_mark_from(xml, "]]>"@, start + 9);
    }
}

fn xml_text_content(xml: &Vec<u8>) -> (r: Result<Vec<u8>, ContainerError>)
    ensures
        match (r, content_from(xml@, 0, Seq::empty())) {
            (Ok(read), Ok(expected)) => read@ == expected,
            (Err(e), Err(expected)) => e == expected,
            _ => false,
        },
{
    let total: usize = xml.len();
    let mut read: Vec<u8> = Vec::new();
    let mut offset: usize = 0;
    while offset < total
        invariant
            offset <= total,
            total == xml@.len(),
            content_from(xml@, 0, Seq::empty()) == content_from(xml@, offset as int, read@),
        decreases total - offset,
    {
        let start: usize = find_byte(xml, 60, offset);
        let mut text = match unescape(copy_range(xml, offset, start)) {
            Ok(text) => text,
            Err(e) => return Err(e),
        };
        read.append(&mut text);
        if start >= total {
            return Ok(read);
        }
        match skip_special(xml, start) {
            Err(e) => return Err(e),
            Ok(Some(next)) => {
                proof {
                    lemma_section(xml@, start as int);
                }
                if is_marked(xml, start, "<![CDATA[") {
                    let mut section = copy_range(xml, start + 9, next - 3);
                    read.append(&mut section);
                } else {
                    proof {
                        assert(read@ + Seq::<u8>::empty() =~= read@);
                    }
                }
                offset = next;
            },
            Ok(None) => match find_xml_tag_end(xml, start + 1) {
                Err(e) => return Err(e),
                Ok(end) => {
                    offset = end + 1;
                },
            },
        }
    }
    Ok(read)
}

/// The content of a description: that of its first list item, or all of it.
pub open spec fn description_content(inner: Seq<u8>) -> Result<Seq<u8>, ContainerError> {
    match element_from(inner, 0, "rdf:li"@, "rdf:li"@) {
        Err(e) => Err(e),
        Ok(Some(Element::Empty)) => Err(ContainerError::EmptyWebpDescription),
        Ok(Some(Element::Holding { from, to })) => Ok(inner.subrange(from, to)),
        Ok(None) => Ok(inner),
    }
}

/// What the description in XMP data says, if there is one.
pub open spec fn xmp_description(xmp: Seq<u8>) -> Result<Option<Seq<u8>>, ContainerError> {
    match element_from(xmp, 0, "dc:description"@, "xmp:description"@) {
        Err(e) => Err(e),
        Ok(None) => Ok(None),
        Ok(Some(Element::Empty)) => Err(ContainerError::EmptyWebpDescription),
        Ok(Some(Element::Holding { from, to })) => match description_content(
            xmp.subrange(from, to),
        ) {
            Err(e) => Err(e),
            Ok(content) => match content_from(content, 0, Seq::empty()) {
                Err(e) => Err(e),
                Ok(text) => if trimmed_bytes(text).len() == 0 {
                    Err(ContainerError::EmptyWebpDescription)
                } else {
                    Ok(Some(trimmed_bytes(text)))
                },
            },
        },
    }
}

/// What the description in XMP data says, if there is one.
pub fn extract_xmp_description(xmp: &Vec<u8>) -> (r: Result<Option<Vec<u8>>, ContainerError>)
    ensures
        finding(r) == xmp_description(xmp@),
{
    proof {
        reveal_strlit("dc:description");
        reveal_strlit("xmp:description");
        reveal_strlit("rdf:li");
    }
    let inner = match find_xml_element(xmp, "dc:description", 14, "xmp:description", 15) {
        Err(e) => return Err(e),
        Ok(None) => return Ok(None),
        Ok(Some(FoundElement::Empty)) => return Err(ContainerError::EmptyWebpDescription),
        Ok(Some(FoundElement::Holding(from, to))) => copy_range(xmp, from, to),
    };
    let content = match find_xml_element(&inner, "rdf:li", 6, "rdf:li", 6) {
        Err(e) => return Err(e),
        Ok(Some(FoundElement::Empty)) => return Err(ContainerError::EmptyWebpDescription),
        Ok(Some(FoundElement::Holding(from, to))) => copy_range(&inner, from, to),
        Ok(None) => inner,
    };
    match xml_text_content(&content) {
        Err(e) => Err(e),
        Ok(text) => {
            let trimmed = trim_bytes(&text);
            if trimmed.len() == 0 {
                Err(ContainerError::EmptyWebpDescription)
            } else {
                Ok(Some(trimmed))
            }
        },
    }
}

} // verus!

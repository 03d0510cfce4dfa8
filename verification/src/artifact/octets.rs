//! Marks, numbers and blanks among bytes.
use vstd::prelude::*;

use crate::text::to_chars;

verus! {

/// A mark stands at a place: each byte is the code of the mark's character.
pub open spec fn marks(bytes: Seq<u8>, at: int, mark: Seq<char>) -> bool {
    &&& 0 <= at && at + mark.len() <= bytes.len()
    &&& forall|i: int| 0 <= i < mark.len() ==> #[trigger] mark[i] as u32 == bytes[at + i] as u32
}

/// Whether a mark stands at a place.
pub fn is_marked(bytes: &Vec<u8>, at: usize, mark: &str) -> (r: bool)
    ensures
        r == marks(bytes@, at as int, mark@),
{
    let chars = to_chars(mark);
    let total: usize = bytes.len();
    if at > total || chars.len() > total - at {
        return false;
    }
    let mut i: usize = 0;
    while i < chars.len()
        invariant
            i <= chars@.len(),
            chars@ == mark@,
            total == bytes@.len(),
            at + chars@.len() <= total,
            forall|j: int| 0 <= j < i ==> #[trigger] mark@[j] as u32 == bytes@[at + j] as u32,
        decreases chars@.len() - i,
    {
        if chars[i] as u32 != bytes[at + i] as u32 {
            proof {
                assert(mark@[i as int] as u32 != bytes@[at + i] as u32);
            }
            return false;
        }
        i = i + 1;
    }
    true
}

/// The first place of a byte from place `i` on, or the number of bytes.
pub open spec fn byte_from(bytes: Seq<u8>, byte: u8, i: int) -> int
    decreases bytes.len() - i,
{
    if i < 0 || i >= bytes.len() {
        bytes.len() as int
    } else if bytes[i] == byte {
        i
    } else {
        byte_from(bytes, byte, i + 1)
    }
}

/// The first place of a byte from a place on, or the number of bytes.
pub fn find_byte(bytes: &Vec<u8>, byte: u8, from: usize) -> (at: usize)
    requires
        from <= bytes@.len(),
    ensures
        at == byte_from(bytes@, byte, from as int),
        from <= at <= bytes@.len(),
        at < bytes@.len() ==> bytes@[at as int] == byte,
{
    let mut i: usize = from;
    while i < bytes.len()
        invariant
            from <= i <= bytes@.len(),
            byte_from(bytes@, byte, from as int) == byte_from(bytes@, byte, i as int),
        decreases bytes@.len() - i,
    {
        if bytes[i] == byte {
            return i;
        }
        i = i + 1;
    }
    i
}

/// A byte is first found between the place searched from and the end.
pub proof fn lemma_byte_from(bytes: Seq<u8>, byte: u8, i: int)
    requires
        0 <= i <= bytes.len(),
    ensures
        i <= byte_from(bytes, byte, i) <= bytes.len(),
    decreases bytes.len() - i,
{
    if i < bytes.len() {
        lemma_byte_from(bytes, byte, i + 1);
    }
}

/// The first place from place `i` on at which a mark stands.
pub open spec fn mark_from(bytes: Seq<u8>, mark: Seq<char>, i: int) -> Option<int>
    decreases bytes.len() - i,
{
    if i < 0 || i + mark.len() > bytes.len() {
        None
    } else if marks(bytes, i, mark) {
        Some(i)
    } else if i < bytes.len() {
        mark_from(bytes, mark, i + 1)
    } else {
        None
    }
}

/// The first place from a place on at which a mark stands.
pub fn find_mark(bytes: &Vec<u8>, mark: &str, from: usize) -> (at: Option<usize>)
    requires
        from <= bytes@.len(),
    ensures
        match at {
            Some(k) => mark_from(bytes@, mark@, from as int) == Some(k as int) && from <= k && k
                + mark@.len() <= bytes@.len(),
            None => mark_from(bytes@, mark@, from as int) is None,
        },
{
    let mut i: usize = from;
    while i < bytes.len()
        invariant
            from <= i <= bytes@.len(),
            mark_from(bytes@, mark@, from as int) == mark_from(bytes@, mark@, i as int),
        decreases bytes@.len() - i,
    {
        if is_marked(bytes, i, mark) {
            return Some(i);
        }
        proof {
            if i + mark@.len() > bytes@.len() {
                assert(mark_from(bytes@, mark@, i + 1) is None);
            }
        }
        i = i + 1;
    }
    if is_marked(bytes, i, mark) {
        Some(i)
    } else {
        None
    }
}

/// A mark is first found between the place searched from and the end.
pub proof fn lemma_mark_from(bytes: Seq<u8>, mark: Seq<char>, i: int)
    requires
        0 <= i <= bytes.len(),
    ensures
        mark_from(bytes, mark, i) matches Some(k) ==> i <= k && k + mark.len() <= bytes.len(),
    decreases bytes.len() - i,
{
    if i + mark.len() <= bytes.len() && !marks(bytes, i, mark) && i < bytes.len() {
        lemma_mark_from(bytes, mark, i + 1);
    }
}

/// A byte that is white space in ASCII.
pub open spec fn is_gap(byte: u8) -> bool {
    byte == 32 || byte == 9 || byte == 10 || byte == 12 || byte == 13
}

/// Whether a byte is white space in ASCII.
pub fn check_gap(byte: u8) -> (r: bool)
    ensures
        r == is_gap(byte),
{
    byte == 32 || byte == 9 || byte == 10 || byte == 12 || byte == 13
}

/// The first place of a range that holds no white space, or its end.
pub open spec fn gap_end(bytes: Seq<u8>, from: int, to: int) -> int
    decreases to - from,
{
    if from >= to || !is_gap(bytes[from]) {
        from
    } else {
        gap_end(bytes, from + 1, to)
    }
}

/// The end of a range without the white space at its end.
pub open spec fn gap_start(bytes: Seq<u8>, from: int, to: int) -> int
    decreases to - from,
{
    if from >= to || !is_gap(bytes[to - 1]) {
        to
    } else {
        gap_start(bytes, from, to - 1)
    }
}

/// A range of bytes without the white space around it.
pub open spec fn trimmed_range(bytes: Seq<u8>, from: int, to: int) -> (int, int) {
    let start = gap_end(bytes, from, to);
    (start, gap_start(bytes, start, to))
}

/// The first place of a range that holds no white space, or its end.
pub fn find_gap_end(bytes: &Vec<u8>, from: usize, to: usize) -> (start: usize)
    requires
        from <= to <= bytes@.len(),
    ensures
        start == gap_end(bytes@, from as int, to as int),
        from <= start <= to,
{
    let mut start: usize = from;
    while start < to && check_gap(bytes[start])
        invariant
            from <= start <= to <= bytes@.len(),
            gap_end(bytes@, from as int, to as int) == gap_end(bytes@, start as int, to as int),
        decreases to - start,
    {
        start = start + 1;
    }
    start
}

/// A range of bytes without the white space around it.
pub fn trim_gaps(bytes: &Vec<u8>, from: usize, to: usize) -> (range: (usize, usize))
    requires
        from <= to <= bytes@.len(),
    ensures
        trimmed_range(bytes@, from as int, to as int) == (range.0 as int, range.1 as int),
        from <= range.0 <= range.1 <= to,
{
    let start: usize = find_gap_end(bytes, from, to);
    let mut end: usize = to;
    while end > start && check_gap(bytes[end - 1])
        invariant
            from <= start <= end <= to <= bytes@.len(),
            gap_start(bytes@, start as int, to as int) == gap_start(
                bytes@,
                start as int,
                end as int,
            ),
        decreases end,
    {
        end = end - 1;
    }
    (start, end)
}

/// Bytes without the white space around them.
pub open spec fn trimmed_bytes(bytes: Seq<u8>) -> Seq<u8> {
    let range = trimmed_range(bytes, 0, bytes.len() as int);
    bytes.subrange(range.0, range.1)
}

/// Bytes without the white space around them.
pub fn trim_bytes(bytes: &Vec<u8>) -> (trimmed: Vec<u8>)
    ensures
        trimmed@ == trimmed_bytes(bytes@),
{
    let (from, to) = trim_gaps(bytes, 0, bytes.len());
    copy_range(bytes, from, to)
}

/// The bytes of a range.
pub fn copy_range(bytes: &Vec<u8>, from: usize, to: usize) -> (copy: Vec<u8>)
    requires
        from <= to <= bytes@.len(),
    ensures
        copy@ == bytes@.subrange(from as int, to as int),
{
    let mut copy: Vec<u8> = Vec::new();
    let mut i: usize = from;
    proof {
        assert(copy@ =~= bytes@.subrange(from as int, i as int));
    }
    while i < to
        invariant
            from <= i <= to <= bytes@.len(),
            copy@ == bytes@.subrange(from as int, i as int),
        decreases to - i,
    {
        copy.push(bytes[i]);
        i = i + 1;
        proof {
            assert(copy@ =~= bytes@.subrange(from as int, i as int));
        }
    }
    copy
}

/// The order in which the bytes of a number stand.
#[derive(Clone, Copy, Debug, Eq, PartialEq, Structural)]
pub enum ByteOrder {
    Little,
    Big,
}

/// The number of two bytes at a place.
pub open spec fn number16(order: ByteOrder, bytes: Seq<u8>, at: int) -> int {
    match order {
        ByteOrder::Little => bytes[at] + 0x100 * bytes[at + 1],
        ByteOrder::Big => bytes[at + 1] + 0x100 * bytes[at],
    }
}

/// The number of four bytes at a place.
pub open spec fn number32(order: ByteOrder, bytes: Seq<u8>, at: int) -> int {
    match order {
        ByteOrder::Little => bytes[at] + 0x100 * bytes[at + 1] + 0x10000 * bytes[at + 2]
            + 0x1000000 * bytes[at + 3],
        ByteOrder::Big => bytes[at + 3] + 0x100 * bytes[at + 2] + 0x10000 * bytes[at + 1]
            + 0x1000000 * bytes[at],
    }
}

/// The number of two bytes at a place.
pub fn read16(order: ByteOrder, bytes: &Vec<u8>, at: usize) -> (n: u16)
    requires
        at + 2 <= bytes@.len(),
    ensures
        n == number16(order, bytes@, at as int),
{
    proof {
        assert(bytes.len() == bytes@.len());
    }
    let first: u16 = bytes[at] as u16;
    let second: u16 = bytes[at + 1] as u16;
    match order {
        ByteOrder::Little => first + 0x100 * second,
        ByteOrder::Big => second + 0x100 * first,
    }
}

/// The number of four bytes at a place.
pub fn read32(order: ByteOrder, bytes: &Vec<u8>, at: usize) -> (n: u32)
    requires
        at + 4 <= bytes@.len(),
    ensures
        n == number32(order, bytes@, at as int),
{
    proof {
        assert(bytes.len() == bytes@.len());
    }
    let first: u32 = bytes[at] as u32;
    let second: u32 = bytes[at + 1] as u32;
    let third: u32 = bytes[at + 2] as u32;
    let fourth: u32 = bytes[at + 3] as u32;
    match order {
        ByteOrder::Little => first + 0x100 * second + 0x10000 * third + 0x1000000 * fourth,
        ByteOrder::Big => fourth + 0x100 * third + 0x10000 * second + 0x1000000 * first,
    }
}

} // verus!

//! A line of text that is being edited: offsets, selection, composition and display.

use std::ops::Range;

use vstd::prelude::*;
use vstd::utf8::{char_is_scalar, encode_scalar, encode_utf8};

use crate::text::{from_chars, join_text, same_text, to_chars};

verus! {

/// What an offset in a text counts.
#[derive(Clone, Copy, Debug, PartialEq, Eq, Structural)]
pub enum Encoding {
    /// The bytes of the UTF-8 form.
    Utf8,
    /// The units of the UTF-16 form.
    Utf16,
}

/// How much one character takes.
pub open spec fn width(ch: char, encoding: Encoding) -> nat {
    let code = ch as u32;
    match encoding {
        Encoding::Utf8 => if code < 0x80 {
            1
        } else if code < 0x800 {
            2
        } else if code < 0x10000 {
            3
        } else {
            4
        },
        Encoding::Utf16 => if code < 0x10000 {
            1
        } else {
            2
        },
    }
}

/// How much a text takes.
pub open spec fn length(text: Seq<char>, encoding: Encoding) -> nat
    decreases text.len(),
{
    if text.len() == 0 {
        0
    } else {
        length(text.drop_last(), encoding) + width(text.last(), encoding)
    }
}

/// How many characters are read until `offset` is reached.
pub open spec fn chars_before(text: Seq<char>, encoding: Encoding, offset: int) -> nat
    decreases text.len(),
{
    if text.len() == 0 {
        0
    } else if length(text.drop_last(), encoding) < offset {
        text.len()
    } else {
        chars_before(text.drop_last(), encoding, offset)
    }
}

/// The offset that counts in `to` the characters that `offset` counts in `from`.
pub open spec fn converted(text: Seq<char>, from: Encoding, to: Encoding, offset: int) -> nat {
    length(text.take(chars_before(text, from, offset) as int), to)
}

/// Whether a byte offset stands before, between or behind the characters.
pub open spec fn is_boundary(text: Seq<char>, offset: nat) -> bool {
    converted(text, Encoding::Utf8, Encoding::Utf8, offset as int) == offset
}

/// The last boundary at or before a byte offset.
pub open spec fn boundary_at_or_before(text: Seq<char>, offset: nat) -> nat
    decreases text.len(),
{
    if text.len() == 0 || length(text, Encoding::Utf8) <= offset {
        length(text, Encoding::Utf8)
    } else {
        boundary_at_or_before(text.drop_last(), offset)
    }
}

/// The length of a text is the sum over its parts.
proof fn lemma_length_add(left: Seq<char>, right: Seq<char>, encoding: Encoding)
    ensures
        length(left + right, encoding) == length(left, encoding) + length(right, encoding),
    decreases right.len(),
{
    if right.len() == 0 {
        assert(left + right =~= left);
    } else {
        lemma_length_add(left, right.drop_last(), encoding);
        assert((left + right).drop_last() =~= left + right.drop_last());
    }
}

/// A longer prefix takes more.
proof fn lemma_prefix_grows(text: Seq<char>, encoding: Encoding, shorter: int, longer: int)
    requires
        0 <= shorter <= longer <= text.len(),
    ensures
        length(text.take(shorter), encoding) + (longer - shorter) <= length(
            text.take(longer),
            encoding,
        ),
    decreases longer - shorter,
{
    if shorter < longer {
        lemma_prefix_grows(text, encoding, shorter, longer - 1);
        assert(text.take(longer).drop_last() =~= text.take(longer - 1));
    }
}

proof fn lemma_chars_before_in_range(text: Seq<char>, encoding: Encoding, offset: int)
    ensures
        chars_before(text, encoding, offset) <= text.len(),
    decreases text.len(),
{
    if text.len() > 0 {
        lemma_chars_before_in_range(text.drop_last(), encoding, offset);
    }
}

/// Reading stops at the first prefix that reaches the offset.
proof fn lemma_is_chars_before(text: Seq<char>, encoding: Encoding, offset: int, count: int)
    requires
        0 <= count <= text.len(),
        count > 0 ==> length(text.take(count - 1), encoding) < offset,
        count < text.len() ==> length(text.take(count), encoding) >= offset,
    ensures
        chars_before(text, encoding, offset) == count,
    decreases text.len(),
{
    if text.len() > 0 {
        let shorter = text.drop_last();
        assert(shorter =~= text.take(text.len() - 1));
        if count < text.len() {
            lemma_prefix_grows(text, encoding, count, text.len() - 1);
            assert(shorter.take(count) =~= text.take(count));
            if count > 0 {
                assert(shorter.take(count - 1) =~= text.take(count - 1));
            }
            lemma_is_chars_before(shorter, encoding, offset, count);
        }
    }
}

/// The offset behind some characters counts just these.
proof fn lemma_chars_before_prefix(text: Seq<char>, encoding: Encoding, count: int)
    requires
        0 <= count <= text.len(),
    ensures
        chars_before(text, encoding, length(text.take(count), encoding) as int) == count,
{
    if count > 0 {
        lemma_prefix_grows(text, encoding, count - 1, count);
    }
    lemma_is_chars_before(text, encoding, length(text.take(count), encoding) as int, count);
}

/// A later offset counts at least as many characters.
proof fn lemma_chars_before_grows(text: Seq<char>, encoding: Encoding, first: int, second: int)
    requires
        first <= second,
    ensures
        chars_before(text, encoding, first) <= chars_before(text, encoding, second),
    decreases text.len(),
{
    if text.len() > 0 {
        lemma_chars_before_in_range(text.drop_last(), encoding, first);
        lemma_chars_before_grows(text.drop_last(), encoding, first, second);
    }
}

/// A boundary is the byte length of the characters in front of it.
proof fn lemma_boundary(text: Seq<char>, count: int)
    requires
        0 <= count <= text.len(),
    ensures
        is_boundary(text, length(text.take(count), Encoding::Utf8)),
        chars_before(text, Encoding::Utf8, length(text.take(count), Encoding::Utf8) as int)
            == count,
{
    lemma_chars_before_prefix(text, Encoding::Utf8, count);
}

/// A boundary lies within the text.
proof fn lemma_boundary_within(text: Seq<char>, offset: nat)
    requires
        is_boundary(text, offset),
    ensures
        offset <= length(text, Encoding::Utf8),
{
    let count = chars_before(text, Encoding::Utf8, offset as int);
    lemma_chars_before_in_range(text, Encoding::Utf8, offset as int);
    lemma_prefix_grows(text, Encoding::Utf8, count as int, text.len() as int);
    assert(text.take(text.len() as int) =~= text);
}

/// Both ends of a text are boundaries.
proof fn lemma_ends_are_boundaries(text: Seq<char>)
    ensures
        is_boundary(text, 0),
        is_boundary(text, length(text, Encoding::Utf8)),
        chars_before(text, Encoding::Utf8, 0) == 0,
        chars_before(text, Encoding::Utf8, length(text, Encoding::Utf8) as int) == text.len(),
{
    lemma_boundary(text, 0);
    lemma_boundary(text, text.len() as int);
    assert(text.take(0) =~= Seq::<char>::empty());
    assert(text.take(text.len() as int) =~= text);
}

/// A text never takes more UTF-16 units than UTF-8 bytes.
proof fn lemma_units_fit(text: Seq<char>)
    ensures
        length(text, Encoding::Utf16) <= length(text, Encoding::Utf8),
    decreases text.len(),
{
    if text.len() > 0 {
        lemma_units_fit(text.drop_last());
    }
}

/// The byte length counts the bytes of the UTF-8 form.
pub proof fn byte_lengths_count_bytes(text: Seq<char>)
    ensures
        length(text, Encoding::Utf8) == encode_utf8(text).len(),
    decreases text.len(),
{
    if text.len() > 0 {
        let first = seq![text[0]];
        let rest = text.drop_first();
        byte_lengths_count_bytes(rest);
        assert(text =~= first + rest);
        lemma_length_add(first, rest, Encoding::Utf8);
        reveal_with_fuel(length, 2);
        char_is_scalar(text[0]);
        assert(encode_scalar(text[0] as u32).len() == width(text[0], Encoding::Utf8));
    }
}

/// At a character, the offsets of both forms give one another: converting there and
/// back returns the same offset.
pub proof fn offsets_convert_back(text: Seq<char>, from: Encoding, to: Encoding, count: int)
    requires
        0 <= count <= text.len(),
    ensures
        converted(text, from, to, length(text.take(count), from) as int) == length(
            text.take(count),
            to,
        ),
        converted(
            text,
            to,
            from,
            converted(text, from, to, length(text.take(count), from) as int) as int,
        ) == length(text.take(count), from),
{
    lemma_chars_before_prefix(text, from, count);
    lemma_chars_before_prefix(text, to, count);
}

/// Every converted offset stands at a character.
pub proof fn converted_offsets_are_boundaries(text: Seq<char>, offset: int)
    ensures
        is_boundary(text, converted(text, Encoding::Utf16, Encoding::Utf8, offset)),
{
    lemma_chars_before_in_range(text, Encoding::Utf16, offset);
    lemma_boundary(text, chars_before(text, Encoding::Utf16, offset) as int);
}

fn char_width(ch: char, encoding: Encoding) -> (result: usize)
    ensures
        result == width(ch, encoding),
{
    let code: u32 = ch as u32;
    match encoding {
        Encoding::Utf8 => if code < 0x80 {
            1
        } else if code < 0x800 {
            2
        } else if code < 0x10000 {
            3
        } else {
            4
        },
        Encoding::Utf16 => if code < 0x10000 {
            1
        } else {
            2
        },
    }
}

/// The byte length of a text.
fn byte_length(text: &str) -> (result: usize)
    ensures
        result == length(text@, Encoding::Utf8),
{
    proof {
        byte_lengths_count_bytes(text@);
    }
    text.as_bytes().len()
}

/// Reads characters until `offset` is reached: how many they are, and how much they
/// take in the other form.
fn convert(text: &str, from: Encoding, to: Encoding, offset: usize) -> (result: (usize, usize))
    ensures
        result.0 == chars_before(text@, from, offset as int),
        result.1 == converted(text@, from, to, offset as int),
{
    let limit: usize = byte_length(text);
    let chars = to_chars(text);
    let mut index: usize = 0;
    let mut counted: usize = 0;
    let mut result: usize = 0;
    assert(text@.take(0) =~= Seq::<char>::empty());
    while index < chars.len() && counted < offset
        invariant
            chars@ == text@,
            limit == length(text@, Encoding::Utf8),
            index <= chars@.len(),
            counted == length(text@.take(index as int), from),
            result == length(text@.take(index as int), to),
            index > 0 ==> length(text@.take(index - 1), from) < offset,
        decreases chars.len() - index,
    {
        proof {
            let next = text@.take(index + 1);
            assert(next.drop_last() =~= text@.take(index as int));
            assert(next.last() == text@[index as int]);
            lemma_prefix_grows(text@, Encoding::Utf8, index + 1, text@.len() as int);
            assert(text@.take(text@.len() as int) =~= text@);
            lemma_units_fit(next);
        }
        counted = counted + char_width(chars[index], from);
        result = result + char_width(chars[index], to);
        index = index + 1;
    }
    proof {
        lemma_is_chars_before(text@, from, offset as int, index as int);
    }
    (index, result)
}

/// The byte offset of the character at which `offset` UTF-16 units are reached.
pub fn utf8_offset_from_utf16(content: &str, offset: usize) -> (result: usize)
    ensures
        result == converted(content@, Encoding::Utf16, Encoding::Utf8, offset as int),
{
    convert(content, Encoding::Utf16, Encoding::Utf8, offset).1
}

/// The UTF-16 offset of the character at which `offset` bytes are reached.
pub fn utf16_offset_from_utf8(content: &str, offset: usize) -> (result: usize)
    ensures
        result == converted(content@, Encoding::Utf8, Encoding::Utf16, offset as int),
{
    convert(content, Encoding::Utf8, Encoding::Utf16, offset).1
}

/// The byte range, in a text that holds `new_text` at `insertion_offset`, of a
/// selection that is given in UTF-16 units of the new text.
pub fn marked_selection_to_utf8(
    insertion_offset: usize,
    new_text: &str,
    selection_utf16: &Range<usize>,
) -> (range: Range<usize>)
    requires
        insertion_offset + length(new_text@, Encoding::Utf8) <= usize::MAX,
    ensures
        range.start == insertion_offset + converted(
            new_text@,
            Encoding::Utf16,
            Encoding::Utf8,
            selection_utf16.start as int,
        ),
        range.end == insertion_offset + converted(
            new_text@,
            Encoding::Utf16,
            Encoding::Utf8,
            selection_utf16.end as int,
        ),
{
    let start: usize = utf8_offset_from_utf16(new_text, selection_utf16.start);
    let end: usize = utf8_offset_from_utf16(new_text, selection_utf16.end);
    proof {
        converted_offsets_are_boundaries(new_text@, selection_utf16.start as int);
        converted_offsets_are_boundaries(new_text@, selection_utf16.end as int);
        lemma_boundary_within(new_text@, start as nat);
        lemma_boundary_within(new_text@, end as nat);
    }
    insertion_offset + start..insertion_offset + end
}

/// Where a pointer at byte `index` of the laid out text stands in the content: the
/// character there, or nothing once the content has changed since the layout.
pub open spec fn pointed_index(content: Seq<char>, layout: Seq<char>, index: nat) -> Option<nat> {
    if content != layout {
        None
    } else {
        Some(boundary_at_or_before(content, index))
    }
}

proof fn lemma_boundary_at_or_before(text: Seq<char>, offset: nat, count: int)
    requires
        0 <= count <= text.len(),
        length(text.take(count), Encoding::Utf8) <= offset,
        count < text.len() ==> length(text.take(count + 1), Encoding::Utf8) > offset,
    ensures
        boundary_at_or_before(text, offset) == length(text.take(count), Encoding::Utf8),
    decreases text.len(),
{
    assert(text.take(text.len() as int) =~= text);
    if count < text.len() {
        let shorter = text.drop_last();
        lemma_prefix_grows(text, Encoding::Utf8, count + 1, text.len() as int);
        assert(shorter.take(count) =~= text.take(count));
        if count < shorter.len() {
            assert(shorter.take(count + 1) =~= text.take(count + 1));
        }
        lemma_boundary_at_or_before(shorter, offset, count);
    }
}

/// The character that a pointer meets; see `pointed_index`.
pub fn mouse_index_for_layout(content: &str, layout_text: &str, index: usize) -> (result: Option<
    usize,
>)
    ensures
        match pointed_index(content@, layout_text@, index as nat) {
            None => result is None,
            Some(offset) => result matches Some(found) && found == offset && is_boundary(
                content@,
                found as nat,
            ),
        },
{
    if !same_text(content, layout_text) {
        return None;
    }
    let limit: usize = byte_length(content);
    let chars = to_chars(content);
    let mut count: usize = 0;
    let mut offset: usize = 0;
    assert(content@.take(0) =~= Seq::<char>::empty());
    while count < chars.len()
        invariant
            chars@ == content@,
            limit == length(content@, Encoding::Utf8),
            count <= chars@.len(),
            content@ == layout_text@,
            offset == length(content@.take(count as int), Encoding::Utf8),
            offset <= index,
        decreases chars.len() - count,
    {
        proof {
            let next = content@.take(count + 1);
            assert(next.drop_last() =~= content@.take(count as int));
            lemma_prefix_grows(content@, Encoding::Utf8, count + 1, content@.len() as int);
            assert(content@.take(content@.len() as int) =~= content@);
        }
        let next: usize = offset + char_width(chars[count], Encoding::Utf8);
        if next > index {
            proof {
                lemma_boundary_at_or_before(content@, index as nat, count as int);
                lemma_boundary(content@, count as int);
            }
            return Some(offset);
        }
        offset = next;
        count = count + 1;
    }
    proof {
        lemma_boundary_at_or_before(content@, index as nat, count as int);
        lemma_boundary(content@, count as int);
    }
    Some(offset)
}

/// The byte offsets at which the extended grapheme clusters of a text start, in order.
pub uninterp spec fn grapheme_starts(text: Seq<char>) -> Seq<usize>;

/// `UnicodeSegmentation::grapheme_indices` cuts a text into extended grapheme clusters
/// and gives the byte offset of each. Which they are follows from the Unicode tables of
/// the crate, so only their name is used; as the clusters are slices of the text, each
/// offset stands at a character.
#[verifier::external_body]
fn cluster_starts(text: &str) -> (starts: Vec<usize>)
    ensures
        starts@ == grapheme_starts(text@),
        forall|i: int|
            0 <= i < starts@.len() ==> is_boundary(text@, #[trigger] starts@[i] as nat),
{
    unicode_segmentation::UnicodeSegmentation::grapheme_indices(text, true).map(
        |(start, _)| start,
    ).collect()
}

/// The last of these offsets in front of `offset`, or the start of the text.
pub open spec fn start_before(starts: Seq<usize>, offset: nat) -> nat
    decreases starts.len(),
{
    if starts.len() == 0 {
        0
    } else if starts.last() < offset {
        starts.last() as nat
    } else {
        start_before(starts.drop_last(), offset)
    }
}

/// The first of these offsets behind `offset`, or the end of the text.
pub open spec fn start_after(starts: Seq<usize>, offset: nat, end: nat) -> nat
    decreases starts.len(),
{
    if starts.len() == 0 {
        end
    } else if starts[0] > offset {
        starts[0] as nat
    } else {
        start_after(starts.skip(1), offset, end)
    }
}

/// The last of these offsets in front of `offset`, or the start of the text.
pub fn boundary_before(starts: &Vec<usize>, offset: usize) -> (result: usize)
    ensures
        result == start_before(starts@, offset as nat),
        result == 0 || starts@.contains(result),
        result == 0 || result < offset,
{
    let mut count: usize = starts.len();
    assert(starts@.take(starts@.len() as int) =~= starts@);
    while count > 0
        invariant
            count <= starts@.len(),
            start_before(starts@.take(count as int), offset as nat) == start_before(
                starts@,
                offset as nat,
            ),
        decreases count,
    {
        assert(starts@.take(count as int).drop_last() =~= starts@.take(count - 1));
        if starts[count - 1] < offset {
            return starts[count - 1];
        }
        count = count - 1;
    }
    0
}

/// The first of these offsets behind `offset`, or the end of the text.
pub fn boundary_after(starts: &Vec<usize>, offset: usize, end: usize) -> (result: usize)
    ensures
        result == start_after(starts@, offset as nat, end as nat),
        result == end || starts@.contains(result),
        result == end || result > offset,
{
    let mut index: usize = 0;
    assert(starts@.skip(0) =~= starts@);
    while index < starts.len()
        invariant
            index <= starts@.len(),
            start_after(starts@.skip(index as int), offset as nat, end as nat) == start_after(
                starts@,
                offset as nat,
                end as nat,
            ),
        decreases starts.len() - index,
    {
        assert(starts@.skip(index as int).skip(1) =~= starts@.skip(index + 1));
        assert(starts@.skip(index as int)[0] == starts@[index as int]);
        if starts[index] > offset {
            return starts[index];
        }
        index = index + 1;
    }
    end
}

/// A line break becomes a space.
pub open spec fn flat_char(ch: char) -> char {
    if ch == '\n' {
        ' '
    } else {
        ch
    }
}

/// A text with its line breaks made spaces.
pub open spec fn flattened(text: Seq<char>) -> Seq<char> {
    text.map_values(|ch: char| flat_char(ch))
}

/// A text with its line breaks made spaces.
pub fn one_line(text: &str) -> (result: String)
    ensures
        result@ == flattened(text@),
{
    let chars = to_chars(text);
    let mut result = String::new();
    let mut index: usize = 0;
    while index < chars.len()
        invariant
            chars@ == text@,
            index <= chars@.len(),
            result@ == flattened(text@.take(index as int)),
        decreases chars.len() - index,
    {
        let ch = chars[index];
        result.push(if ch == '\n' { ' ' } else { ch });
        index = index + 1;
        assert(flattened(text@.take(index as int)) =~= flattened(text@.take(index - 1)).push(
            flat_char(text@[index - 1]),
        ));
    }
    assert(text@.take(text@.len() as int) =~= text@);
    result
}

/// A stretch of the displayed text, in bytes.
#[derive(Clone, Copy, Debug, PartialEq, Eq, Structural)]
pub struct TextRun {
    pub len: usize,
    pub underlined: bool,
}

/// What is drawn over the text.
#[derive(Clone, Copy, Debug, PartialEq, Eq, Structural)]
pub enum Caret {
    /// A cursor at this byte.
    Cursor(usize),
    /// A selection between these bytes.
    Selection(usize, usize),
}

/// Where a pointer is, relative to the laid out line.
#[derive(Clone, Copy, Debug, PartialEq, Eq, Structural)]
pub enum Pointer {
    Above,
    Below,
    /// On the line; the byte of the laid out text that is closest.
    Within(usize),
}

/// The model of a text field.
#[verifier::ext_equal]
pub ghost struct FieldView {
    pub content: Seq<char>,
    pub placeholder: Seq<char>,
    pub start: nat,
    pub end: nat,
    pub reversed: bool,
    pub marked: Option<(nat, nat)>,
    pub selecting: bool,
}

/// How many characters stand in front of a byte.
pub open spec fn count_at(text: Seq<char>, offset: nat) -> int {
    chars_before(text, Encoding::Utf8, offset as int) as int
}

/// A text with the part between two bytes replaced. When the second lies in front of
/// the first, what is between them appears on both sides.
pub open spec fn spliced(text: Seq<char>, start: nat, end: nat, new_text: Seq<char>) -> Seq<char> {
    text.take(count_at(text, start)) + new_text + text.skip(count_at(text, end))
}

/// A range in UTF-16 units as bytes of a text.
pub open spec fn bytes_of_range(text: Seq<char>, start: int, end: int) -> (nat, nat) {
    (
        converted(text, Encoding::Utf16, Encoding::Utf8, start),
        converted(text, Encoding::Utf16, Encoding::Utf8, end),
    )
}

/// A byte range of a text in UTF-16 units.
pub open spec fn units_of_range(text: Seq<char>, start: nat, end: nat) -> (nat, nat) {
    (
        converted(text, Encoding::Utf8, Encoding::Utf16, start as int),
        converted(text, Encoding::Utf8, Encoding::Utf16, end as int),
    )
}

impl FieldView {
    /// Selection and composition stand at characters, and a composition is not empty.
    pub open spec fn valid(self) -> bool {
        &&& is_boundary(self.content, self.start)
        &&& is_boundary(self.content, self.end)
        &&& self.marked matches Some(marked) ==> {
            &&& marked.0 < marked.1
            &&& is_boundary(self.content, marked.0)
            &&& is_boundary(self.content, marked.1)
        }
    }

    /// Whether nothing is selected.
    pub open spec fn unselected(self) -> bool {
        self.start >= self.end
    }

    /// The end of the selection that moves.
    pub open spec fn cursor(self) -> nat {
        if self.reversed {
            self.start
        } else {
            self.end
        }
    }

    /// The start of the cluster in front of `offset`.
    pub open spec fn previous(self, offset: nat) -> nat {
        start_before(grapheme_starts(self.content), offset)
    }

    /// The start of the cluster behind `offset`.
    pub open spec fn next(self, offset: nat) -> nat {
        start_after(grapheme_starts(self.content), offset, length(self.content, Encoding::Utf8))
    }

    /// With the cursor at `offset` and nothing selected.
    pub open spec fn moved(self, offset: nat) -> FieldView {
        FieldView { start: offset, end: offset, ..self }
    }

    /// With the selection drawn to `offset`; its ends change places when they cross.
    pub open spec fn drawn(self, offset: nat) -> FieldView {
        let start = if self.reversed {
            offset
        } else {
            self.start
        };
        let end = if self.reversed {
            self.end
        } else {
            offset
        };
        if end < start {
            FieldView { start: end, end: start, reversed: !self.reversed, ..self }
        } else {
            FieldView { start, end, ..self }
        }
    }

    /// The bytes that an input replaces: the given range, else the composition, else
    /// the selection.
    pub open spec fn target(self, range_utf16: Option<Range<usize>>) -> (nat, nat) {
        match range_utf16 {
            Some(range) => bytes_of_range(self.content, range.start as int, range.end as int),
            None => match self.marked {
                Some(marked) => marked,
                None => (self.start, self.end),
            },
        }
    }

    /// After an input, with the cursor behind the new text.
    pub open spec fn replaced(
        self,
        range_utf16: Option<Range<usize>>,
        new_text: Seq<char>,
    ) -> FieldView {
        let (start, end) = self.target(range_utf16);
        let behind = start + length(new_text, Encoding::Utf8);
        FieldView {
            content: spliced(self.content, start, end, new_text),
            start: behind,
            end: behind,
            marked: None,
            ..self
        }
    }

    /// After an input that is still being composed: the new text is marked, and the
    /// selection is given within it.
    pub open spec fn composed(
        self,
        range_utf16: Option<Range<usize>>,
        new_text: Seq<char>,
        selection_utf16: Option<Range<usize>>,
    ) -> FieldView {
        let (start, end) = self.target(range_utf16);
        let behind = start + length(new_text, Encoding::Utf8);
        let selection = match selection_utf16 {
            Some(range) => {
                let within = bytes_of_range(new_text, range.start as int, range.end as int);
                (start + within.0, start + within.1)
            },
            None => (behind, behind),
        };
        FieldView {
            content: spliced(self.content, start, end, new_text),
            start: selection.0,
            end: selection.1,
            marked: if new_text.len() > 0 {
                Some((start, behind))
            } else {
                None
            },
            ..self
        }
    }

    /// The selected text.
    pub open spec fn selection(self) -> Option<Seq<char>> {
        if self.unselected() {
            None
        } else {
            Some(
                self.content.subrange(
                    count_at(self.content, self.start),
                    count_at(self.content, self.end),
                ),
            )
        }
    }

    /// The text on display.
    pub open spec fn shown(self) -> Seq<char> {
        if self.content.len() == 0 {
            self.placeholder
        } else {
            self.content
        }
    }

    /// The stretches of the text on display: a composition is underlined.
    pub open spec fn runs(self) -> Seq<(nat, bool)> {
        let whole = length(self.shown(), Encoding::Utf8);
        match self.marked {
            None => seq![(whole, false)],
            Some((start, end)) => {
                let before = if start > 0 {
                    seq![(start, false)]
                } else {
                    Seq::empty()
                };
                let after = if whole > end {
                    seq![((whole - end) as nat, false)]
                } else {
                    Seq::empty()
                };
                before.push(((end - start) as nat, true)) + after
            },
        }
    }
}

/// Where the parts of a spliced text stand.
proof fn lemma_spliced(text: Seq<char>, start: nat, end: nat, new_text: Seq<char>, count: int)
    requires
        is_boundary(text, start),
        is_boundary(text, end),
        0 <= count <= new_text.len(),
    ensures
        ({
            let whole = spliced(text, start, end, new_text);
            let offset = start + length(new_text.take(count), Encoding::Utf8);
            &&& is_boundary(whole, offset)
            &&& count_at(whole, offset) == count_at(text, start) + count
            &&& count_at(text, start) + new_text.len() <= whole.len()
        }),
{
    let whole = spliced(text, start, end, new_text);
    lemma_chars_before_in_range(text, Encoding::Utf8, start as int);
    lemma_chars_before_in_range(text, Encoding::Utf8, end as int);
    let front = text.take(count_at(text, start));
    let at = count_at(text, start) + count;
    assert(whole.take(at) =~= front + new_text.take(count));
    lemma_length_add(front, new_text.take(count), Encoding::Utf8);
    lemma_boundary(whole, at);
}

/// An input leaves a valid field.
proof fn lemma_replaced_valid(
    field: FieldView,
    range_utf16: Option<Range<usize>>,
    new_text: Seq<char>,
)
    requires
        field.valid(),
    ensures
        field.replaced(range_utf16, new_text).valid(),
        is_boundary(field.content, field.target(range_utf16).0),
        is_boundary(field.content, field.target(range_utf16).1),
        field.target(range_utf16).0 <= length(field.content, Encoding::Utf8),
{
    if let Some(range) = range_utf16 {
        converted_offsets_are_boundaries(field.content, range.start as int);
        converted_offsets_are_boundaries(field.content, range.end as int);
    }
    let (start, end) = field.target(range_utf16);
    lemma_boundary_within(field.content, start);
    lemma_spliced(field.content, start, end, new_text, new_text.len() as int);
    assert(new_text.take(new_text.len() as int) =~= new_text);
}

/// An input that is still being composed leaves a valid field.
proof fn lemma_composed_valid(
    field: FieldView,
    range_utf16: Option<Range<usize>>,
    new_text: Seq<char>,
    selection_utf16: Option<Range<usize>>,
)
    requires
        field.valid(),
    ensures
        field.composed(range_utf16, new_text, selection_utf16).valid(),
{
    lemma_replaced_valid(field, range_utf16, new_text);
    let (start, end) = field.target(range_utf16);
    lemma_spliced(field.content, start, end, new_text, 0);
    lemma_spliced(field.content, start, end, new_text, new_text.len() as int);
    assert(new_text.take(0) =~= Seq::<char>::empty());
    assert(new_text.take(new_text.len() as int) =~= new_text);
    if new_text.len() > 0 {
        lemma_prefix_grows(new_text, Encoding::Utf8, 0, new_text.len() as int);
    }
    if let Some(range) = selection_utf16 {
        let first = chars_before(new_text, Encoding::Utf16, range.start as int) as int;
        let second = chars_before(new_text, Encoding::Utf16, range.end as int) as int;
        lemma_chars_before_in_range(new_text, Encoding::Utf16, range.start as int);
        lemma_chars_before_in_range(new_text, Encoding::Utf16, range.end as int);
        lemma_spliced(field.content, start, end, new_text, first);
        lemma_spliced(field.content, start, end, new_text, second);
    }
}

/// A text field: a line of text, a selection and a composition in progress.
#[derive(Debug)]
pub struct TextField {
    content: String,
    placeholder: String,
    start: usize,
    end: usize,
    reversed: bool,
    marked: Option<(usize, usize)>,
    selecting: bool,
}

impl View for TextField {
    type V = FieldView;

    closed spec fn view(&self) -> FieldView {
        FieldView {
            content: self.content@,
            placeholder: self.placeholder@,
            start: self.start as nat,
            end: self.end as nat,
            reversed: self.reversed,
            marked: match self.marked {
                Some(marked) => Some((marked.0 as nat, marked.1 as nat)),
                None => None,
            },
            selecting: self.selecting,
        }
    }
}

impl TextField {
    /// An empty field that shows `placeholder`.
    pub fn new(placeholder: &str) -> (field: TextField)
        ensures
            field@.valid(),
            field@ == (FieldView {
                content: Seq::empty(),
                placeholder: placeholder@,
                start: 0,
                end: 0,
                reversed: false,
                marked: None,
                selecting: false,
            }),
    {
        let field = TextField::with_content(placeholder, String::new());
        assert(field@.content =~= Seq::<char>::empty());
        field
    }

    /// A field that starts with this content, the cursor in front of it.
    pub fn with_content(placeholder: &str, content: String) -> (field: TextField)
        ensures
            field@.valid(),
            field@ == (FieldView {
                content: content@,
                placeholder: placeholder@,
                start: 0,
                end: 0,
                reversed: false,
                marked: None,
                selecting: false,
            }),
    {
        proof {
            lemma_ends_are_boundaries(content@);
        }
        TextField {
            content,
            placeholder: placeholder.to_owned(),
            start: 0,
            end: 0,
            reversed: false,
            marked: None,
            selecting: false,
        }
    }

    /// The content.
    pub fn content(&self) -> (content: &str)
        ensures
            content@ == self@.content,
    {
        self.content.as_str()
    }

    /// The selected bytes.
    pub fn selected_range(&self) -> (range: Range<usize>)
        ensures
            range.start == self@.start,
            range.end == self@.end,
    {
        self.start..self.end
    }

    /// Whether the pointer is drawing a selection.
    pub fn is_selecting(&self) -> (selecting: bool)
        ensures
            selecting == self@.selecting,
    {
        self.selecting
    }

    /// The end of the selection that moves.
    pub fn cursor_offset(&self) -> (offset: usize)
        ensures
            offset == self@.cursor(),
    {
        if self.reversed {
            self.start
        } else {
            self.end
        }
    }

    fn is_unselected(&self) -> (unselected: bool)
        ensures
            unselected == self@.unselected(),
    {
        self.start >= self.end
    }

    /// Puts the cursor at a character.
    pub fn move_to(&mut self, offset: usize)
        requires
            old(self)@.valid(),
            is_boundary(old(self)@.content, offset as nat),
        ensures
            final(self)@.valid(),
            final(self)@ == old(self)@.moved(offset as nat),
    {
        self.start = offset;
        self.end = offset;
    }

    /// Draws the selection to a character.
    pub fn select_to(&mut self, offset: usize)
        requires
            old(self)@.valid(),
            is_boundary(old(self)@.content, offset as nat),
        ensures
            final(self)@.valid(),
            final(self)@ == old(self)@.drawn(offset as nat),
    {
        if self.reversed {
            self.start = offset;
        } else {
            self.end = offset;
        }
        if self.end < self.start {
            self.reversed = !self.reversed;
            let start: usize = self.end;
            self.end = self.start;
            self.start = start;
        }
    }

    /// The start of the cluster in front of `offset`.
    pub fn previous_boundary(&self, offset: usize) -> (result: usize)
        ensures
            result == self@.previous(offset as nat),
            is_boundary(self@.content, result as nat),
    {
        let starts = cluster_starts(self.content.as_str());
        proof {
            lemma_ends_are_boundaries(self.content@);
        }
        boundary_before(&starts, offset)
    }

    /// The start of the cluster behind `offset`, or the end of the content.
    pub fn next_boundary(&self, offset: usize) -> (result: usize)
        ensures
            result == self@.next(offset as nat),
            is_boundary(self@.content, result as nat),
    {
        let starts = cluster_starts(self.content.as_str());
        proof {
            lemma_ends_are_boundaries(self.content@);
        }
        boundary_after(&starts, offset, byte_length(self.content.as_str()))
    }

    /// One cluster to the left, or to the start of the selection.
    pub fn left(&mut self)
        requires
            old(self)@.valid(),
        ensures
            final(self)@.valid(),
            final(self)@ == old(self)@.moved(
                if old(self)@.unselected() {
                    old(self)@.previous(old(self)@.cursor())
                } else {
                    old(self)@.start
                },
            ),
    {
        if self.is_unselected() {
            let cursor: usize = self.cursor_offset();
            let offset: usize = self.previous_boundary(cursor);
            self.move_to(offset);
        } else {
            let offset: usize = self.start;
            self.move_to(offset);
        }
    }

    /// One cluster to the right, or to the end of the selection.
    pub fn right(&mut self)
        requires
            old(self)@.valid(),
        ensures
            final(self)@.valid(),
            final(self)@ == old(self)@.moved(
                if old(self)@.unselected() {
                    old(self)@.next(old(self)@.end)
                } else {
                    old(self)@.end
                },
            ),
    {
        let end: usize = self.end;
        if self.is_unselected() {
            let offset: usize = self.next_boundary(end);
            self.move_to(offset);
        } else {
            self.move_to(end);
        }
    }

    /// Draws the selection one cluster to the left.
    pub fn select_left(&mut self)
        requires
            old(self)@.valid(),
        ensures
            final(self)@.valid(),
            final(self)@ == old(self)@.drawn(old(self)@.previous(old(self)@.cursor())),
    {
        let cursor: usize = self.cursor_offset();
        let offset: usize = self.previous_boundary(cursor);
        self.select_to(offset);
    }

    /// Draws the selection one cluster to the right.
    pub fn select_right(&mut self)
        requires
            old(self)@.valid(),
        ensures
            final(self)@.valid(),
            final(self)@ == old(self)@.drawn(old(self)@.next(old(self)@.cursor())),
    {
        let cursor: usize = self.cursor_offset();
        let offset: usize = self.next_boundary(cursor);
        self.select_to(offset);
    }

    /// Selects the whole content.
    pub fn select_all(&mut self)
        requires
            old(self)@.valid(),
        ensures
            final(self)@.valid(),
            final(self)@ == old(self)@.moved(0).drawn(
                length(old(self)@.content, Encoding::Utf8),
            ),
    {
        proof {
            lemma_ends_are_boundaries(self.content@);
        }
        self.move_to(0);
        let end: usize = byte_length(self.content.as_str());
        self.select_to(end);
    }

    /// To the start of the content.
    pub fn home(&mut self)
        requires
            old(self)@.valid(),
        ensures
            final(self)@.valid(),
            final(self)@ == old(self)@.moved(0),
    {
        proof {
            lemma_ends_are_boundaries(self.content@);
        }
        self.move_to(0);
    }

    /// To the end of the content.
    pub fn end(&mut self)
        requires
            old(self)@.valid(),
        ensures
            final(self)@.valid(),
            final(self)@ == old(self)@.moved(length(old(self)@.content, Encoding::Utf8)),
    {
        proof {
            lemma_ends_are_boundaries(self.content@);
        }
        let end: usize = byte_length(self.content.as_str());
        self.move_to(end);
    }

    /// Removes the selection, or the cluster in front of the cursor.
    pub fn backspace(&mut self)
        requires
            old(self)@.valid(),
        ensures
            final(self)@.valid(),
            final(self)@ == (if old(self)@.unselected() {
                old(self)@.drawn(old(self)@.previous(old(self)@.cursor()))
            } else {
                old(self)@
            }).replaced(None, Seq::empty()),
    {
        if self.is_unselected() {
            self.select_left();
        }
        self.erase();
    }

    /// Removes the selection, or the cluster behind the cursor.
    pub fn delete(&mut self)
        requires
            old(self)@.valid(),
        ensures
            final(self)@.valid(),
            final(self)@ == (if old(self)@.unselected() {
                old(self)@.drawn(old(self)@.next(old(self)@.cursor()))
            } else {
                old(self)@
            }).replaced(None, Seq::empty()),
    {
        if self.is_unselected() {
            self.select_right();
        }
        self.erase();
    }

    /// Removes the composition, else the selection.
    fn erase(&mut self)
        requires
            old(self)@.valid(),
        ensures
            final(self)@.valid(),
            final(self)@ == old(self)@.replaced(None, Seq::empty()),
    {
        let empty = String::new();
        let length: usize = byte_length(self.content.as_str());
        assert(length <= usize::MAX);
        self.replace_text_in_range(None, empty.as_str());
    }

    /// The pointer was pressed at a character, if there is one below it.
    pub fn on_mouse_down(&mut self, index: Option<usize>, shift: bool)
        requires
            old(self)@.valid(),
            index matches Some(offset) ==> is_boundary(old(self)@.content, offset as nat),
        ensures
            final(self)@.valid(),
            final(self)@ == ({
                let pressed = FieldView { selecting: true, ..old(self)@ };
                match index {
                    None => pressed,
                    Some(offset) => if shift {
                        pressed.drawn(offset as nat)
                    } else {
                        pressed.moved(offset as nat)
                    },
                }
            }),
    {
        self.selecting = true;
        if let Some(offset) = index {
            if shift {
                self.select_to(offset);
            } else {
                self.move_to(offset);
            }
        }
    }

    /// The pointer was released.
    pub fn on_mouse_up(&mut self)
        requires
            old(self)@.valid(),
        ensures
            final(self)@.valid(),
            final(self)@ == (FieldView { selecting: false, ..old(self)@ }),
    {
        self.selecting = false;
    }

    /// The pointer moved to a character, if there is one below it.
    pub fn on_mouse_move(&mut self, index: Option<usize>)
        requires
            old(self)@.valid(),
            index matches Some(offset) ==> is_boundary(old(self)@.content, offset as nat),
        ensures
            final(self)@.valid(),
            final(self)@ == (match index {
                Some(offset) if old(self)@.selecting => old(self)@.drawn(offset as nat),
                _ => old(self)@,
            }),
    {
        if self.selecting {
            if let Some(offset) = index {
                self.select_to(offset);
            }
        }
    }

    /// The character below a pointer: the first one while the content is empty, none
    /// when the line was not laid out or the content has changed since.
    pub fn index_for_mouse_position(&self, layout: Option<(&str, Pointer)>) -> (index: Option<
        usize,
    >)
        ensures
            index matches Some(offset) ==> is_boundary(self@.content, offset as nat),
            if self@.content.len() == 0 {
                index == Some(0usize)
            } else {
                match layout {
                    None => index is None,
                    Some((text, pointer)) => if text@ != self@.content {
                        index is None
                    } else {
                        index matches Some(offset) && offset == (match pointer {
                            Pointer::Above => 0,
                            Pointer::Below => length(self@.content, Encoding::Utf8),
                            Pointer::Within(closest) => boundary_at_or_before(
                                self@.content,
                                closest as nat,
                            ),
                        })
                    },
                }
            },
    {
        proof {
            lemma_ends_are_boundaries(self.content@);
        }
        if self.content.as_str().is_empty() {
            return Some(0);
        }
        match layout {
            None => None,
            Some((text, pointer)) => {
                if !same_text(text, self.content.as_str()) {
                    return None;
                }
                match pointer {
                    Pointer::Above => Some(0),
                    Pointer::Below => Some(byte_length(self.content.as_str())),
                    Pointer::Within(closest) => mouse_index_for_layout(
                        self.content.as_str(),
                        text,
                        closest,
                    ),
                }
            },
        }
    }

    /// The UTF-16 offset of a byte of the laid out text, unless the content has changed
    /// since.
    pub fn character_index(&self, layout_text: &str, index: usize) -> (result: Option<usize>)
        ensures
            if layout_text@ != self@.content {
                result is None
            } else {
                result matches Some(offset) && offset == converted(
                    self@.content,
                    Encoding::Utf8,
                    Encoding::Utf16,
                    index as int,
                )
            },
    {
        if same_text(layout_text, self.content.as_str()) {
            Some(utf16_offset_from_utf8(self.content.as_str(), index))
        } else {
            None
        }
    }

    /// A byte range in UTF-16 units.
    pub fn range_to_utf16(&self, range: &Range<usize>) -> (result: Range<usize>)
        ensures
            units_of_range(self@.content, range.start as nat, range.end as nat) == (
                result.start as nat,
                result.end as nat,
            ),
    {
        utf16_offset_from_utf8(self.content.as_str(), range.start)..utf16_offset_from_utf8(
            self.content.as_str(),
            range.end,
        )
    }

    /// A range in UTF-16 units as bytes.
    pub fn range_from_utf16(&self, range_utf16: &Range<usize>) -> (result: Range<usize>)
        ensures
            bytes_of_range(self@.content, range_utf16.start as int, range_utf16.end as int) == (
                result.start as nat,
                result.end as nat,
            ),
    {
        utf8_offset_from_utf16(self.content.as_str(), range_utf16.start)..utf8_offset_from_utf16(
            self.content.as_str(),
            range_utf16.end,
        )
    }

    /// The selection in UTF-16 units, and whether its start is what moves.
    pub fn selected_text_range(&self) -> (result: (Range<usize>, bool))
        ensures
            units_of_range(self@.content, self@.start, self@.end) == (
                result.0.start as nat,
                result.0.end as nat,
            ),
            result.1 == self@.reversed,
    {
        (self.range_to_utf16(&(self.start..self.end)), self.reversed)
    }

    /// The composition in UTF-16 units.
    pub fn marked_text_range(&self) -> (result: Option<Range<usize>>)
        ensures
            match self@.marked {
                None => result is None,
                Some((start, end)) => result matches Some(range) && units_of_range(
                    self@.content,
                    start,
                    end,
                ) == (range.start as nat, range.end as nat),
            },
    {
        match self.marked {
            None => None,
            Some((start, end)) => Some(self.range_to_utf16(&(start..end))),
        }
    }

    /// Ends the composition; its text stays.
    pub fn unmark_text(&mut self)
        requires
            old(self)@.valid(),
        ensures
            final(self)@.valid(),
            final(self)@ == (FieldView { marked: None, ..old(self)@ }),
    {
        self.marked = None;
    }

    /// The part of the content between two UTF-16 offsets, and the range it really has.
    pub fn text_for_range(&self, range_utf16: &Range<usize>) -> (result: (String, Range<usize>))
        requires
            range_utf16.start <= range_utf16.end,
        ensures
            result.0@ == self@.content.subrange(
                chars_before(self@.content, Encoding::Utf16, range_utf16.start as int) as int,
                chars_before(self@.content, Encoding::Utf16, range_utf16.end as int) as int,
            ),
            ({
                let bytes = bytes_of_range(
                    self@.content,
                    range_utf16.start as int,
                    range_utf16.end as int,
                );
                units_of_range(self@.content, bytes.0, bytes.1) == (
                    result.1.start as nat,
                    result.1.end as nat,
                )
            }),
    {
        let content = self.content.as_str();
        let chars = to_chars(content);
        let from = convert(content, Encoding::Utf16, Encoding::Utf8, range_utf16.start);
        let to = convert(content, Encoding::Utf16, Encoding::Utf8, range_utf16.end);
        proof {
            lemma_chars_before_in_range(content@, Encoding::Utf16, range_utf16.end as int);
            lemma_chars_before_grows(
                content@,
                Encoding::Utf16,
                range_utf16.start as int,
                range_utf16.end as int,
            );
        }
        (from_chars(&chars, from.0, to.0), self.range_to_utf16(&(from.1..to.1)))
    }

    /// The selected text, if any is selected.
    pub fn copy(&self) -> (text: Option<String>)
        requires
            self@.valid(),
        ensures
            match self@.selection() {
                None => text is None,
                Some(selection) => text matches Some(copied) && copied@ == selection,
            },
    {
        if self.is_unselected() {
            return None;
        }
        let content = self.content.as_str();
        let chars = to_chars(content);
        let from = convert(content, Encoding::Utf8, Encoding::Utf8, self.start);
        let to = convert(content, Encoding::Utf8, Encoding::Utf8, self.end);
        proof {
            lemma_chars_before_in_range(content@, Encoding::Utf8, self.end as int);
            lemma_chars_before_grows(
                content@,
                Encoding::Utf8,
                self.start as int,
                self.end as int,
            );
        }
        Some(from_chars(&chars, from.0, to.0))
    }

    /// Removes and returns the selected text, if any is selected. While a text is being
    /// composed, the composition is what is removed.
    pub fn cut(&mut self) -> (text: Option<String>)
        requires
            old(self)@.valid(),
        ensures
            final(self)@.valid(),
            match old(self)@.selection() {
                None => text is None && final(self)@ == old(self)@,
                Some(selection) => {
                    &&& text matches Some(copied) && copied@ == selection
                    &&& final(self)@ == old(self)@.replaced(None, Seq::empty())
                },
            },
    {
        let text = self.copy();
        if text.is_some() {
            self.erase();
        }
        text
    }

    /// Puts a text in place of the selection, its line breaks made spaces.
    pub fn paste(&mut self, text: &str)
        requires
            old(self)@.valid(),
            length(old(self)@.content, Encoding::Utf8) + length(
                flattened(text@),
                Encoding::Utf8,
            ) <= usize::MAX,
        ensures
            final(self)@.valid(),
            final(self)@ == old(self)@.replaced(None, flattened(text@)),
    {
        let line = one_line(text);
        self.replace_text_in_range(None, line.as_str());
    }

    /// The bytes that an input replaces.
    fn target_of(&self, range_utf16: &Option<Range<usize>>) -> (target: (usize, usize))
        ensures
            self@.target(*range_utf16) == (target.0 as nat, target.1 as nat),
    {
        match range_utf16 {
            Some(range_utf16) => {
                let range = self.range_from_utf16(range_utf16);
                (range.start, range.end)
            },
            None => match self.marked {
                Some(marked) => marked,
                None => (self.start, self.end),
            },
        }
    }

    /// The content with the part between two bytes replaced.
    fn splice(&self, start: usize, end: usize, new_text: &str) -> (content: String)
        ensures
            content@ == spliced(self@.content, start as nat, end as nat, new_text@),
    {
        let content = self.content.as_str();
        let chars = to_chars(content);
        let from: usize = convert(content, Encoding::Utf8, Encoding::Utf8, start).0;
        let to: usize = convert(content, Encoding::Utf8, Encoding::Utf8, end).0;
        proof {
            lemma_chars_before_in_range(content@, Encoding::Utf8, start as int);
            lemma_chars_before_in_range(content@, Encoding::Utf8, end as int);
        }
        let front = from_chars(&chars, 0, from);
        let back = from_chars(&chars, to, chars.len());
        let whole = join_text(join_text(front.as_str(), new_text).as_str(), back.as_str());
        proof {
            assert(chars@.subrange(0, from as int) =~= content@.take(from as int));
            assert(chars@.subrange(to as int, chars@.len() as int) =~= content@.skip(to as int));
        }
        whole
    }

    /// An input: `new_text` takes the place of the given range, else of the
    /// composition, else of the selection, and the cursor goes behind it.
    pub fn replace_text_in_range(&mut self, range_utf16: Option<Range<usize>>, new_text: &str)
        requires
            old(self)@.valid(),
            length(old(self)@.content, Encoding::Utf8) + length(new_text@, Encoding::Utf8)
                <= usize::MAX,
        ensures
            final(self)@.valid(),
            final(self)@ == old(self)@.replaced(range_utf16, new_text@),
    {
        proof {
            lemma_replaced_valid(self@, range_utf16, new_text@);
        }
        let (start, end) = self.target_of(&range_utf16);
        let content = self.splice(start, end, new_text);
        let behind: usize = start + byte_length(new_text);
        self.content = content;
        self.start = behind;
        self.end = behind;
        self.marked = None;
    }

    /// An input that is still being composed: as `replace_text_in_range`, but the new
    /// text is marked, and the selection lies within it.
    pub fn replace_and_mark_text_in_range(
        &mut self,
        range_utf16: Option<Range<usize>>,
        new_text: &str,
        new_selected_range_utf16: Option<Range<usize>>,
    )
        requires
            old(self)@.valid(),
            length(old(self)@.content, Encoding::Utf8) + length(new_text@, Encoding::Utf8)
                <= usize::MAX,
        ensures
            final(self)@.valid(),
            final(self)@ == old(self)@.composed(
                range_utf16,
                new_text@,
                new_selected_range_utf16,
            ),
    {
        proof {
            lemma_replaced_valid(self@, range_utf16, new_text@);
            lemma_composed_valid(self@, range_utf16, new_text@, new_selected_range_utf16);
        }
        let (start, end) = self.target_of(&range_utf16);
        let content = self.splice(start, end, new_text);
        let behind: usize = start + byte_length(new_text);
        let selection = match &new_selected_range_utf16 {
            Some(range_utf16) => marked_selection_to_utf8(start, new_text, range_utf16),
            None => behind..behind,
        };
        self.content = content;
        self.marked = if new_text.is_empty() {
            None
        } else {
            Some((start, behind))
        };
        self.start = selection.start;
        self.end = selection.end;
    }

    /// The text on display, and whether it is the placeholder.
    pub fn display_text(&self) -> (result: (&str, bool))
        ensures
            result.0@ == self@.shown(),
            result.1 == (self@.content.len() == 0),
    {
        if self.content.as_str().is_empty() {
            (self.placeholder.as_str(), true)
        } else {
            (self.content.as_str(), false)
        }
    }

    /// The stretches of the text on display: a composition is underlined.
    pub fn text_runs(&self) -> (runs: Vec<TextRun>)
        requires
            self@.valid(),
        ensures
            runs@.map_values(|run: TextRun| (run.len as nat, run.underlined)) == self@.runs(),
    {
        let whole: usize = byte_length(self.display_text().0);
        let ghost plain = |run: TextRun| (run.len as nat, run.underlined);
        let mut runs: Vec<TextRun> = Vec::new();
        match self.marked {
            None => {
                runs.push(TextRun { len: whole, underlined: false });
            },
            Some((start, end)) => {
                proof {
                    lemma_boundary_within(self.content@, end as nat);
                }
                if start > 0 {
                    runs.push(TextRun { len: start, underlined: false });
                }
                runs.push(TextRun { len: end - start, underlined: true });
                if whole > end {
                    runs.push(TextRun { len: whole - end, underlined: false });
                }
            },
        }
        assert(runs@.map_values(plain) =~= self@.runs());
        runs
    }

    /// What is drawn over the text: the cursor, or the selection.
    pub fn caret(&self) -> (caret: Caret)
        ensures
            if self@.unselected() {
                caret matches Caret::Cursor(at) && at == self@.cursor()
            } else {
                caret matches Caret::Selection(from, to) && from == self@.start && to == self@.end
            },
    {
        if self.is_unselected() {
            Caret::Cursor(self.cursor_offset())
        } else {
            Caret::Selection(self.start, self.end)
        }
    }
}

/// The stretches on display cover the text on display exactly.
pub proof fn runs_cover_the_text(field: FieldView)
    requires
        field.valid(),
    ensures
        field.runs().fold_left(0, |sum: nat, run: (nat, bool)| sum + run.0) == length(
            field.shown(),
            Encoding::Utf8,
        ),
{
    let add_run = |sum: nat, run: (nat, bool)| sum + run.0;
    let runs = field.runs();
    if let Some((start, end)) = field.marked {
        lemma_boundary_within(field.content, end);
    }
    reveal_with_fuel(Seq::fold_left, 4);
    assert(runs.fold_left(0, add_run) == length(field.shown(), Encoding::Utf8));
}

/// Selecting all and typing replaces the whole content.
pub proof fn typing_over_everything(field: FieldView, new_text: Seq<char>)
    requires
        field.valid(),
        field.marked is None,
    ensures
        field.moved(0).drawn(length(field.content, Encoding::Utf8)).replaced(
            None,
            new_text,
        ).content == new_text,
{
    lemma_ends_are_boundaries(field.content);
    let whole = field.moved(0).drawn(length(field.content, Encoding::Utf8));
    assert(field.content.take(0) + new_text + field.content.skip(field.content.len() as int)
        =~= new_text);
}

/// Cutting a selection and putting it back restores the content.
pub proof fn cut_text_can_be_put_back(field: FieldView)
    requires
        field.valid(),
        field.marked is None,
        !field.unselected(),
    ensures
        field.replaced(None, Seq::empty()).replaced(
            None,
            field.selection().unwrap(),
        ).content == field.content,
{
    let text = field.content;
    let from = count_at(text, field.start);
    let to = count_at(text, field.end);
    lemma_chars_before_in_range(text, Encoding::Utf8, field.end as int);
    lemma_chars_before_grows(text, Encoding::Utf8, field.start as int, field.end as int);
    lemma_spliced(text, field.start, field.end, Seq::empty(), 0);
    let shorter = field.replaced(None, Seq::empty());
    assert(Seq::<char>::empty().take(0) =~= Seq::<char>::empty());
    assert(shorter.content =~= text.take(from) + text.skip(to));
    assert(count_at(shorter.content, shorter.start) == from);
    assert(shorter.content.take(from) =~= text.take(from));
    assert(shorter.content.skip(from) =~= text.skip(to));
    assert(text.take(from) + text.subrange(from, to) + text.skip(to) =~= text);
}

/// Drawing a selection moves its one end to where the cursor goes and keeps the other.
pub proof fn drawing_moves_one_end(field: FieldView, offset: nat)
    requires
        field.start <= field.end,
    ensures
        ({
            let after = field.drawn(offset);
            let fixed = if field.reversed {
                field.end
            } else {
                field.start
            };
            &&& after.cursor() == offset
            &&& after.start <= after.end
            &&& (after.start == fixed && after.end == offset) || (after.start == offset && after.end
                == fixed)
            &&& after.content == field.content && after.marked == field.marked
        }),
{
}

/// Moving the cursor leaves nothing selected and changes no text.
pub proof fn moving_selects_nothing(field: FieldView, offset: nat)
    ensures
        field.moved(offset).cursor() == offset,
        field.moved(offset).unselected(),
        field.moved(offset).selection() is None,
        field.moved(offset).content == field.content,
        field.moved(offset).marked == field.marked,
{
}

/// An input replaces the range that it names, else what is being composed, else what is
/// selected.
pub proof fn inputs_replace_what_is_meant(field: FieldView, range: Range<usize>)
    ensures
        field.target(Some(range)) == (
            converted(field.content, Encoding::Utf16, Encoding::Utf8, range.start as int),
            converted(field.content, Encoding::Utf16, Encoding::Utf8, range.end as int),
        ),
        field.marked is None ==> field.target(None) == (field.start, field.end),
        field.marked matches Some(marked) ==> field.target(None) == marked,
{
}

/// What is typed stands where the replaced text stood, between what was before and behind
/// it, with the cursor after it and nothing selected or composed.
pub proof fn typing_replaces_in_place(
    before: Seq<char>,
    old_text: Seq<char>,
    behind: Seq<char>,
    new_text: Seq<char>,
    field: FieldView,
)
    requires
        field.content == before + old_text + behind,
        field.marked is None,
        field.start == length(before, Encoding::Utf8),
        field.end == length(before + old_text, Encoding::Utf8),
    ensures
        ({
            let after = field.replaced(None, new_text);
            &&& after.content == before + new_text + behind
            &&& after.start == length(before + new_text, Encoding::Utf8)
            &&& after.end == after.start
            &&& after.marked is None
        }),
        ({
            let after = field.composed(None, new_text, None);
            &&& after.content == before + new_text + behind
            &&& after.end == length(before + new_text, Encoding::Utf8)
            &&& new_text.len() > 0 ==> after.marked == Some((field.start, after.end))
            &&& new_text.len() == 0 ==> after.marked is None
        }),
{
    let text = field.content;
    let head = before + old_text;
    assert(text.take(before.len() as int) =~= before);
    assert(text.take(head.len() as int) =~= head);
    lemma_chars_at_length(text, before.len() as int);
    lemma_chars_at_length(text, head.len() as int);
    assert(text.skip(head.len() as int) =~= behind);
    lemma_length_add(before, new_text, Encoding::Utf8);
}

proof fn lemma_chars_at_length(text: Seq<char>, count: int)
    requires
        0 <= count <= text.len(),
    ensures
        count_at(text, length(text.take(count), Encoding::Utf8)) == count,
    decreases text.len(),
{
    assert(text.take(text.len() as int) =~= text);
    if text.len() > 0 {
        let front = text.drop_last();
        assert(front =~= text.take(text.len() - 1));
        if count < text.len() {
            lemma_chars_at_length(front, count);
            assert(front.take(count) =~= text.take(count));
            if count < text.len() - 1 {
                lemma_prefix_grows(text, Encoding::Utf8, count, text.len() - 1);
            }
        }
    }
}

/// The cursor goes to the nearest cluster: none begins between it and where it was.
pub proof fn clusters_are_not_skipped(starts: Seq<usize>, offset: nat, end: nat, other: int)
    requires
        forall|i: int, j: int| 0 <= i < j < starts.len() ==> starts[i] < starts[j],
        0 <= other < starts.len(),
    ensures
        starts[other] < offset ==> starts[other] <= start_before(starts, offset) < offset,
        starts[other] > offset ==> offset < start_after(starts, offset, end) <= starts[other],
    decreases starts.len(),
{
    let front = starts.drop_last();
    if starts[other] < offset && starts.last() >= offset {
        assert(front[other] == starts[other]);
        clusters_are_not_skipped(front, offset, end, other);
    }
    let rest = starts.skip(1);
    if starts[other] > offset && starts[0] <= offset {
        assert(rest[other - 1] == starts[other]);
        clusters_are_not_skipped(rest, offset, end, other - 1);
    }
}

/// Past the last cluster comes the end of the text, and in front of the first its start.
pub proof fn cursors_stop_at_the_ends(starts: Seq<usize>, offset: nat, end: nat)
    ensures
        (forall|k: int| 0 <= k < starts.len() ==> #[trigger] starts[k] >= offset) ==> start_before(
            starts,
            offset,
        ) == 0,
        (forall|k: int| 0 <= k < starts.len() ==> #[trigger] starts[k] <= offset) ==> start_after(
            starts,
            offset,
            end,
        ) == end,
    decreases starts.len(),
{
    if starts.len() > 0 {
        let front = starts.drop_last();
        let rest = starts.skip(1);
        cursors_stop_at_the_ends(front, offset, end);
        cursors_stop_at_the_ends(rest, offset, end);
        if forall|k: int| 0 <= k < starts.len() ==> #[trigger] starts[k] >= offset {
            assert(starts[starts.len() - 1] >= offset);
            assert forall|k: int| 0 <= k < front.len() implies #[trigger] front[k] >= offset by {
                assert(starts[k] >= offset);
            }
        }
        if forall|k: int| 0 <= k < starts.len() ==> #[trigger] starts[k] <= offset {
            assert(starts[0] <= offset);
            assert forall|k: int| 0 <= k < rest.len() implies #[trigger] rest[k] <= offset by {
                assert(starts[k + 1] <= offset);
            }
        }
    }
}

/// A place in the text is taken back to the character that it falls in, and to no earlier
/// one.
pub proof fn places_fall_on_characters(text: Seq<char>, offset: nat, count: int)
    requires
        0 <= count <= text.len(),
    ensures
        boundary_at_or_before(text, offset) <= offset,
        length(text.take(count), Encoding::Utf8) <= offset ==> length(
            text.take(count),
            Encoding::Utf8,
        ) <= boundary_at_or_before(text, offset),
        exists|at: int|
            0 <= at <= text.len() && boundary_at_or_before(text, offset) == length(
                #[trigger] text.take(at),
                Encoding::Utf8,
            ),
    decreases text.len(),
{
    assert(text.take(text.len() as int) =~= text);
    if text.len() == 0 || length(text, Encoding::Utf8) <= offset {
        if count < text.len() {
            lemma_prefix_grows(text, Encoding::Utf8, count, text.len() as int);
        }
    } else {
        let front = text.drop_last();
        let shorter = if count < text.len() {
            count
        } else {
            0
        };
        places_fall_on_characters(front, offset, shorter);
        assert(front.take(shorter) =~= text.take(shorter));
        let at = choose|at: int|
            0 <= at <= front.len() && boundary_at_or_before(front, offset) == length(
                #[trigger] front.take(at),
                Encoding::Utf8,
            );
        assert(text.take(at) =~= front.take(at));
    }
}

/// A line break becomes a space and every other character stays, so a field holds one
/// line.
pub proof fn fields_hold_one_line(text: Seq<char>, at: int)
    requires
        0 <= at < text.len(),
    ensures
        flattened(text).len() == text.len(),
        flattened(text)[at] != '\n',
        text[at] == '\n' ==> flattened(text)[at] == ' ',
        text[at] != '\n' ==> flattened(text)[at] == text[at],
{
}

/// A place that was pointed at in a text that has changed meanwhile means nothing.
pub proof fn places_in_old_texts_mean_nothing(
    content: Seq<char>,
    layout: Seq<char>,
    index: nat,
)
    ensures
        pointed_index(content, layout, index) is Some <==> content == layout,
        pointed_index(content, content, index) == Some(boundary_at_or_before(content, index)),
{
}

} // verus!

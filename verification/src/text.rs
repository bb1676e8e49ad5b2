//! Text as sequences of characters: conversion, search, splitting and padding.

use vstd::prelude::*;

verus! {

/// `String::push` appends one character at the end.
pub assume_specification[ String::push ](text: &mut String, ch: char)
    ensures
        final(text)@ == old(text)@.push(ch),
;

/// The characters of a text, in order.
pub fn to_chars(text: &str) -> (chars: Vec<char>)
    ensures
        chars@ == text@,
{
    let mut chars: Vec<char> = Vec::new();
    for ch in iter: text.chars()
        invariant
            iter.seq() == text@,
            chars@ == text@.take(iter.index() as int),
    {
        chars.push(ch);
        assert(text@.take(iter.index() as int).push(ch) =~= text@.take(iter.index() as int + 1));
    }
    assert(text@.take(text@.len() as int) =~= text@);
    chars
}

/// The text made of some of these characters, in order.
pub fn from_chars(chars: &Vec<char>, from: usize, to: usize) -> (text: String)
    requires
        from <= to <= chars@.len(),
    ensures
        text@ == chars@.subrange(from as int, to as int),
{
    let mut text = String::new();
    let mut i: usize = from;
    while i < to
        invariant
            from <= i <= to <= chars@.len(),
            text@ == chars@.subrange(from as int, i as int),
        decreases to - i,
    {
        text.push(chars[i]);
        i = i + 1;
        assert(chars@.subrange(from as int, i - 1).push(chars@[i - 1]) =~= chars@.subrange(
            from as int,
            i as int,
        ));
    }
    text
}

/// Whether two texts are the same, character by character.
pub fn same_text(left: &str, right: &str) -> (same: bool)
    ensures
        same == (left@ == right@),
{
    left.to_owned() == right.to_owned()
}

/// Whether these characters equal the given text.
pub fn chars_are(chars: &Vec<char>, text: &str) -> (same: bool)
    ensures
        same == (chars@ == text@),
{
    let whole = from_chars(chars, 0, chars.len());
    assert(chars@.subrange(0, chars@.len() as int) =~= chars@);
    whole == text.to_owned()
}

/// Where `needle` stands in `text` at position `at`.
pub open spec fn occurs_at(text: Seq<char>, needle: Seq<char>, at: int) -> bool {
    0 <= at && at + needle.len() <= text.len() && text.subrange(at, at + needle.len()) == needle
}

/// Whether `needle` stands somewhere in `text`.
pub open spec fn occurs(text: Seq<char>, needle: Seq<char>) -> bool {
    exists|at: int| #[trigger] occurs_at(text, needle, at)
}

/// Whether `needle` stands somewhere in `text`.
pub fn contains_text(text: &str, needle: &str) -> (found: bool)
    ensures
        found == occurs(text@, needle@),
{
    let chars = to_chars(text);
    let wanted = to_chars(needle);
    if wanted.len() > chars.len() {
        return false;
    }
    let total: usize = chars.len();
    let last: usize = total - wanted.len();
    let mut at: usize = 0;
    while at <= last
        invariant
            chars@ == text@,
            wanted@ == needle@,
            total == chars@.len(),
            last + wanted@.len() == total,
            at <= last + 1,
            forall|k: int| 0 <= k < at ==> !#[trigger] occurs_at(text@, needle@, k),
        decreases last + 1 - at,
    {
        let piece = from_chars(&chars, at, at + wanted.len());
        if chars_are(&wanted, &piece) {
            assert(occurs_at(text@, needle@, at as int));
            return true;
        }
        if at == last {
            return false;
        }
        at = at + 1;
    }
    false
}

/// The pieces of a text between separators; there is always at least one.
pub open spec fn pieces(text: Seq<char>, separator: char) -> Seq<Seq<char>>
    decreases text.len(),
{
    if text.len() == 0 {
        seq![Seq::empty()]
    } else {
        let before = pieces(text.drop_last(), separator);
        if text.last() == separator {
            before.push(Seq::empty())
        } else {
            before.update(before.len() - 1, before.last().push(text.last()))
        }
    }
}

/// A text has at least one piece.
pub proof fn lemma_pieces_nonempty(text: Seq<char>, separator: char)
    ensures
        pieces(text, separator).len() >= 1,
    decreases text.len(),
{
    if text.len() > 0 {
        lemma_pieces_nonempty(text.drop_last(), separator);
    }
}

/// The views of a list of texts.
pub open spec fn views(texts: Seq<String>) -> Seq<Seq<char>> {
    texts.map_values(|text: String| text@)
}

/// Cuts a text at every separator.
pub fn split_text(text: &str, separator: char) -> (parts: Vec<String>)
    ensures
        views(parts@) == pieces(text@, separator),
        parts@.len() == pieces(text@, separator).len(),
{
    let chars = to_chars(text);
    let mut parts: Vec<String> = Vec::new();
    let mut current = String::new();
    let mut i: usize = 0;
    assert(chars@.take(0) =~= Seq::<char>::empty());
    assert(views(parts@).push(current@) =~= pieces(chars@.take(0), separator));
    while i < chars.len()
        invariant
            i <= chars@.len(),
            views(parts@).push(current@) == pieces(chars@.take(i as int), separator),
        decreases chars@.len() - i,
    {
        let ghost before = views(parts@).push(current@);
        assert(chars@.take(i + 1).drop_last() =~= chars@.take(i as int));
        if chars[i] == separator {
            let mut next = String::new();
            std::mem::swap(&mut next, &mut current);
            parts.push(next);
            assert(views(parts@) =~= before);
        } else {
            current.push(chars[i]);
            assert(views(parts@).push(current@) =~= before.update(
                before.len() - 1,
                before.last().push(chars@[i as int]),
            ));
        }
        i = i + 1;
    }
    assert(chars@.take(chars@.len() as int) =~= chars@);
    let ghost done = views(parts@).push(current@);
    parts.push(current);
    assert(views(parts@) =~= done);
    parts
}

/// The decimal digit for a number below ten.
pub open spec fn digit_char(value: nat) -> char {
    ((48 + value % 10) as u8) as char
}

/// The decimal digits of a number, without leading zeros.
pub open spec fn decimal(value: nat) -> Seq<char>
    decreases value,
{
    if value < 10 {
        seq![digit_char(value)]
    } else {
        decimal(value / 10).push(digit_char(value % 10))
    }
}

/// Writes a large number in decimal.
pub fn wide_decimal_text(value: u128) -> (text: String)
    ensures
        text@ == decimal(value as nat),
    decreases value,
{
    let digit: u8 = 48 + (value % 10) as u8;
    if value < 10 {
        let mut text = String::new();
        text.push(digit as char);
        assert(text@ =~= decimal(value as nat));
        text
    } else {
        let mut text = wide_decimal_text(value / 10);
        text.push(digit as char);
        text
    }
}

/// Writes a number in decimal.
pub fn decimal_text(value: u64) -> (text: String)
    ensures
        text@ == decimal(value as nat),
{
    wide_decimal_text(value as u128)
}

/// Whether a character is a decimal digit.
pub open spec fn is_digit(ch: char) -> bool {
    '0' <= ch <= '9'
}

/// Whether a text holds decimal digits only.
pub open spec fn all_digits(text: Seq<char>) -> bool {
    forall|i: int| 0 <= i < text.len() ==> is_digit(#[trigger] text[i])
}

/// The number that decimal digits stand for.
pub open spec fn digits_value(text: Seq<char>) -> nat
    decreases text.len(),
{
    if text.len() == 0 {
        0
    } else {
        (digits_value(text.drop_last()) * 10 + (text.last() as int - '0' as int)) as nat
    }
}

proof fn lemma_digits_grow(text: Seq<char>, count: int)
    requires
        all_digits(text),
        0 <= count <= text.len(),
    ensures
        digits_value(text.take(count)) <= digits_value(text),
    decreases text.len(),
{
    if count == text.len() {
        assert(text.take(count) =~= text);
    } else {
        let front = text.drop_last();
        assert(front.take(count) =~= text.take(count));
        assert forall|i: int| 0 <= i < front.len() implies is_digit(#[trigger] front[i]) by {
            assert(is_digit(text[i]));
        }
        lemma_digits_grow(front, count);
        assert(is_digit(text[text.len() - 1]));
    }
}

/// A number written in decimal reads back as itself.
pub proof fn lemma_decimal_reads_back(value: nat)
    ensures
        decimal(value).len() >= 1,
        all_digits(decimal(value)),
        digits_value(decimal(value)) == value,
    decreases value,
{
    let digits = decimal(value);
    if value < 10 {
        assert(digits.drop_last() =~= Seq::<char>::empty());
        assert(digits_value(Seq::<char>::empty()) == 0);
    } else {
        lemma_decimal_reads_back(value / 10);
        assert(digits.drop_last() =~= decimal(value / 10));
        assert forall|i: int| 0 <= i < digits.len() implies is_digit(#[trigger] digits[i]) by {
            if i < digits.len() - 1 {
                assert(is_digit(decimal(value / 10)[i]));
            }
        }
    }
}

/// Whether a text holds decimal digits only.
pub fn digits_only(chars: &Vec<char>) -> (digits: bool)
    ensures
        digits == all_digits(chars@),
{
    let mut i: usize = 0;
    while i < chars.len()
        invariant
            i <= chars@.len(),
            forall|k: int| 0 <= k < i ==> is_digit(#[trigger] chars@[k]),
        decreases chars@.len() - i,
    {
        if chars[i] < '0' || chars[i] > '9' {
            assert(!is_digit(chars@[i as int]));
            return false;
        }
        i = i + 1;
    }
    true
}

/// Reads a number of at least one digit that is no larger than the limit.
pub fn read_digits(chars: &Vec<char>, limit: u64) -> (value: Option<u64>)
    ensures
        value is Some <==> (chars@.len() > 0 && all_digits(chars@) && digits_value(chars@)
            <= limit),
        value matches Some(number) ==> number == digits_value(chars@),
{
    if chars.len() == 0 || !digits_only(chars) {
        return None;
    }
    let mut value: u64 = 0;
    let mut i: usize = 0;
    assert(chars@.take(0) =~= Seq::<char>::empty());
    while i < chars.len()
        invariant
            i <= chars@.len(),
            all_digits(chars@),
            value <= limit,
            value == digits_value(chars@.take(i as int)),
        decreases chars@.len() - i,
    {
        assert(chars@.take(i + 1).drop_last() =~= chars@.take(i as int));
        assert(chars@.take(i + 1).last() == chars@[i as int]);
        assert(is_digit(chars@[i as int]));
        let digit: u64 = (chars[i] as u32 - '0' as u32) as u64;
        let next: u128 = value as u128 * 10 + digit as u128;
        assert(next == digits_value(chars@.take(i + 1)));
        if next > limit as u128 {
            proof {
                lemma_digits_grow(chars@, i + 1);
            }
            return None;
        }
        value = next as u64;
        i = i + 1;
    }
    assert(chars@.take(i as int) =~= chars@);
    Some(value)
}

/// That many zeros.
pub open spec fn zeros(count: nat) -> Seq<char> {
    Seq::new(count, |i: int| '0')
}

/// A number in decimal, with zeros in front up to the given width.
pub open spec fn padded(value: nat, width: nat) -> Seq<char> {
    let digits = decimal(value);
    if digits.len() >= width {
        digits
    } else {
        zeros((width - digits.len()) as nat) + digits
    }
}

/// Writes a number in decimal, with zeros in front up to the given width.
pub fn padded_text(value: u64, width: usize) -> (text: String)
    ensures
        text@ == padded(value as nat, width as nat),
{
    let digits = to_chars(&decimal_text(value));
    let mut text = String::new();
    let mut have: usize = digits.len();
    while have < width
        invariant
            have >= digits@.len(),
            digits@.len() >= width ==> have == digits@.len(),
            digits@.len() < width ==> have <= width,
            text@ == zeros((have - digits@.len()) as nat),
        decreases width - have,
    {
        text.push('0');
        have = have + 1;
        assert(text@ =~= zeros((have - digits@.len()) as nat));
    }
    let mut i: usize = 0;
    let ghost front = text@;
    while i < digits.len()
        invariant
            i <= digits@.len(),
            text@ == front + digits@.take(i as int),
        decreases digits@.len() - i,
    {
        text.push(digits[i]);
        i = i + 1;
        assert(text@ =~= front + digits@.take(i as int));
    }
    assert(text@ =~= padded(value as nat, width as nat));
    text
}

/// Joins two texts.
pub fn join_text(left: &str, right: &str) -> (text: String)
    ensures
        text@ == left@ + right@,
{
    let mut text = left.to_owned();
    text.append(right);
    text
}

/// Whether one text stands before another in the order of their characters.
pub open spec fn text_less(left: Seq<char>, right: Seq<char>) -> bool
    decreases left.len(),
{
    if right.len() == 0 {
        false
    } else if left.len() == 0 {
        true
    } else {
        left[0] < right[0] || (left[0] == right[0] && text_less(left.skip(1), right.skip(1)))
    }
}

/// Whether one text stands before another in the order of their characters.
pub fn text_before(left: &str, right: &str) -> (before: bool)
    ensures
        before == text_less(left@, right@),
{
    let first = to_chars(left);
    let second = to_chars(right);
    let mut i: usize = 0;
    assert(first@.skip(0) =~= first@);
    assert(second@.skip(0) =~= second@);
    while i < first.len() && i < second.len()
        invariant
            first@ == left@,
            second@ == right@,
            i <= first@.len(),
            i <= second@.len(),
            text_less(first@, second@) == text_less(first@.skip(i as int), second@.skip(i as int)),
        decreases first@.len() - i,
    {
        if first[i] < second[i] {
            return true;
        }
        if first[i] > second[i] {
            return false;
        }
        assert(first@.skip(i as int).skip(1) =~= first@.skip(i + 1));
        assert(second@.skip(i as int).skip(1) =~= second@.skip(i + 1));
        i = i + 1;
    }
    first.len() == i && second.len() > i
}

/// No text stands before itself.
pub proof fn lemma_text_less_irreflexive(text: Seq<char>)
    ensures
        !text_less(text, text),
    decreases text.len(),
{
    if text.len() > 0 {
        lemma_text_less_irreflexive(text.skip(1));
    }
}

/// Of two different texts one stands before the other.
pub proof fn lemma_text_less_total(left: Seq<char>, right: Seq<char>)
    ensures
        left == right || text_less(left, right) || text_less(right, left),
    decreases left.len(),
{
    if left.len() > 0 && right.len() > 0 {
        lemma_text_less_total(left.skip(1), right.skip(1));
        if left[0] == right[0] && left.skip(1) == right.skip(1) {
            assert(left =~= seq![left[0]] + left.skip(1));
            assert(right =~= seq![right[0]] + right.skip(1));
        }
    } else if left.len() == 0 && right.len() == 0 {
        assert(left =~= right);
    }
}

/// The order of texts is transitive.
pub proof fn lemma_text_less_transitive(left: Seq<char>, middle: Seq<char>, right: Seq<char>)
    requires
        text_less(left, middle),
        text_less(middle, right),
    ensures
        text_less(left, right),
    decreases left.len(),
{
    if left.len() > 0 && left[0] == middle[0] && middle[0] == right[0] {
        lemma_text_less_transitive(left.skip(1), middle.skip(1), right.skip(1));
    }
}

/// Unicode white space.
pub open spec fn is_white_space(ch: char) -> bool {
    let code = ch as int;
    ||| 0x9 <= code <= 0xd
    ||| code == 0x20
    ||| code == 0x85
    ||| code == 0xa0
    ||| code == 0x1680
    ||| 0x2000 <= code <= 0x200a
    ||| code == 0x2028
    ||| code == 0x2029
    ||| code == 0x202f
    ||| code == 0x205f
    ||| code == 0x3000
}

/// A text without the white space at its ends.
pub open spec fn trimmed(text: Seq<char>) -> Seq<char>
    decreases text.len(),
{
    if text.len() == 0 {
        text
    } else if is_white_space(text[0]) {
        trimmed(text.drop_first())
    } else if is_white_space(text.last()) {
        trimmed(text.drop_last())
    } else {
        text
    }
}

fn white_space(ch: char) -> (white: bool)
    ensures
        white == is_white_space(ch),
{
    let code: u32 = ch as u32;
    (0x9 <= code && code <= 0xd) || code == 0x20 || code == 0x85 || code == 0xa0 || code == 0x1680
        || (0x2000 <= code && code <= 0x200a) || code == 0x2028 || code == 0x2029 || code == 0x202f
        || code == 0x205f || code == 0x3000
}

/// A text without the white space at its ends.
pub fn trim_text(text: &str) -> (result: String)
    ensures
        result@ == trimmed(text@),
{
    let chars = to_chars(text);
    let mut from: usize = 0;
    let mut to: usize = chars.len();
    assert(text@.subrange(0, text@.len() as int) =~= text@);
    while from < to && white_space(chars[from])
        invariant
            chars@ == text@,
            from <= to == chars@.len(),
            trimmed(text@) == trimmed(text@.subrange(from as int, to as int)),
        decreases to - from,
    {
        assert(text@.subrange(from as int, to as int).drop_first() =~= text@.subrange(
            from + 1,
            to as int,
        ));
        from = from + 1;
    }
    while from < to && white_space(chars[to - 1])
        invariant
            chars@ == text@,
            from <= to <= chars@.len(),
            from < to ==> !is_white_space(text@[from as int]),
            trimmed(text@) == trimmed(text@.subrange(from as int, to as int)),
        decreases to - from,
    {
        assert(text@.subrange(from as int, to as int).drop_last() =~= text@.subrange(
            from as int,
            to - 1,
        ));
        to = to - 1;
    }
    from_chars(&chars, from, to)
}

/// Pieces put together again, with a separator between them.
pub open spec fn glued(parts: Seq<Seq<char>>, separator: char) -> Seq<char>
    decreases parts.len(),
{
    if parts.len() == 0 {
        Seq::empty()
    } else if parts.len() == 1 {
        parts[0]
    } else {
        glued(parts.drop_last(), separator).push(separator) + parts.last()
    }
}

/// The pieces of a text hold no separator, and put together again they are the text.
pub proof fn pieces_make_the_text(text: Seq<char>, separator: char)
    ensures
        glued(pieces(text, separator), separator) == text,
        forall|k: int|
            0 <= k < pieces(text, separator).len() ==> !(#[trigger] pieces(
                text,
                separator,
            )[k]).contains(separator),
    decreases text.len(),
{
    let parts = pieces(text, separator);
    if text.len() == 0 {
        assert(glued(parts, separator) =~= text);
    } else {
        let front = text.drop_last();
        let before = pieces(front, separator);
        let last = text.last();
        pieces_make_the_text(front, separator);
        lemma_pieces_nonempty(front, separator);
        assert(text =~= front.push(last));
        if last == separator {
            assert(parts.drop_last() =~= before);
            assert(glued(parts, separator) =~= text);
        } else {
            let tail = before.last().push(last);
            assert(parts.last() == tail);
            if tail.contains(separator) {
                let k = choose|k: int| 0 <= k < tail.len() && tail[k] == separator;
                assert(before.last()[k] == separator);
                assert(before[before.len() - 1].contains(separator));
            }
            assert forall|k: int| 0 <= k < parts.len() implies !(#[trigger] parts[k]).contains(
                separator,
            ) by {
                if k < parts.len() - 1 {
                    assert(parts[k] == before[k]);
                }
            }
            if before.len() == 1 {
                assert(glued(parts, separator) =~= text);
            } else {
                assert(parts.drop_last() =~= before.drop_last());
                assert(glued(parts, separator) =~= text);
            }
        }
    }
}

/// A text without a separator is its own only piece.
pub proof fn unbroken_texts_are_one_piece(text: Seq<char>, separator: char)
    requires
        forall|i: int| 0 <= i < text.len() ==> text[i] != separator,
    ensures
        pieces(text, separator) == seq![text],
    decreases text.len(),
{
    if text.len() == 0 {
        assert(text =~= Seq::<char>::empty());
        assert(pieces(text, separator) =~= seq![text]);
    } else {
        unbroken_texts_are_one_piece(text.drop_last(), separator);
        assert(text =~= text.drop_last().push(text.last()));
        assert(pieces(text, separator) =~= seq![text]);
    }
}

} // verus!

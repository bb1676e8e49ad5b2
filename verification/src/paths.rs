//! Portable relative paths: the only names that cross the wire.

use vstd::prelude::*;
use vstd::utf8::encode_utf8;

use crate::error::{decided, failure, Result};
use crate::text::{chars_are, from_chars, pieces, split_text, to_chars, views};

verus! {

/// The longest accepted path, in UTF-8 bytes.
pub const MAX_PATH_BYTES: usize = 4096;

/// The deepest accepted path, in components.
pub const MAX_PATH_DEPTH: usize = 64;

/// The longest accepted component, in UTF-8 bytes.
pub const MAX_COMPONENT_BYTES: usize = 255;

/// Whether a character is in the Unicode control category.
pub open spec fn is_control_char(ch: char) -> bool {
    ch as u32 <= 0x1f || 0x7f <= ch as u32 <= 0x9f
}

/// Whether a character is reserved by some file system.
pub open spec fn is_reserved_char(ch: char) -> bool {
    ch == '\\' || ch == ':' || ch == '<' || ch == '>' || ch == '"' || ch == '|' || ch == '?' || ch
        == '*'
}

/// The uppercase form of an ASCII letter; every other character stays.
pub open spec fn ascii_upper(ch: char) -> char {
    if 'a' <= ch <= 'z' {
        ((ch as u8 - 32) as u8) as char
    } else {
        ch
    }
}

/// A text with its ASCII letters in uppercase.
pub open spec fn upper(text: Seq<char>) -> Seq<char> {
    text.map_values(|ch: char| ascii_upper(ch))
}

/// What stands before the first dot.
pub open spec fn stem(component: Seq<char>) -> Seq<char> {
    pieces(component, '.')[0]
}

/// The digits that follow a port name.
pub open spec fn is_port_suffix(ch: char) -> bool {
    '1' <= ch <= '9' || ch == '¹' || ch == '²' || ch == '³'
}

/// Whether an uppercase stem names a device.
pub open spec fn is_device(name: Seq<char>) -> bool {
    ||| name == "CON"@
    ||| name == "PRN"@
    ||| name == "AUX"@
    ||| name == "NUL"@
    ||| name.len() == 4 && (name.take(3) == "COM"@ || name.take(3) == "LPT"@) && is_port_suffix(
        name[3],
    )
}

/// Whether a component is the private directory of the receiver.
pub open spec fn is_internal(component: Seq<char>) -> bool {
    upper(component) == ".P2P-DESKTOP"@
}

/// Whether a component is empty, special, too long, badly ended, private or
/// holds a character that is not portable.
pub open spec fn is_illegal_component(component: Seq<char>) -> bool {
    ||| component.len() == 0
    ||| component == "."@
    ||| component == ".."@
    ||| encode_utf8(component).len() > MAX_COMPONENT_BYTES
    ||| component.last() == '.'
    ||| component.last() == ' '
    ||| is_internal(component)
    ||| exists|i: int|
        0 <= i < component.len() && (is_control_char(#[trigger] component[i]) || is_reserved_char(
            component[i],
        ))
}

/// Why a component is refused, if it is.
pub open spec fn component_refusal(component: Seq<char>) -> Option<Seq<char>> {
    if is_illegal_component(component) {
        Some("桌面相对路径包含非法组件"@)
    } else if is_device(upper(stem(component))) {
        Some("桌面相对路径包含保留设备名"@)
    } else {
        None
    }
}

/// Why the first refused component is refused, if one is.
pub open spec fn components_refusal(components: Seq<Seq<char>>) -> Option<Seq<char>>
    decreases components.len(),
{
    if components.len() == 0 {
        None
    } else {
        let earlier = components_refusal(components.drop_last());
        if earlier is Some {
            earlier
        } else {
            component_refusal(components.last())
        }
    }
}

/// Why a path is refused, if it is.
pub open spec fn path_refusal(path: Seq<char>) -> Option<Seq<char>> {
    if path.len() == 0 || encode_utf8(path).len() > MAX_PATH_BYTES || pieces(path, '/').len()
        > MAX_PATH_DEPTH {
        Some("桌面相对路径长度或深度非法"@)
    } else {
        components_refusal(pieces(path, '/'))
    }
}

/// Whether a path is portable, relative and outside the private directory.
pub open spec fn is_portable(path: Seq<char>) -> bool {
    path_refusal(path) is None
}

fn has_forbidden_char(chars: &Vec<char>) -> (found: bool)
    ensures
        found == exists|i: int|
            0 <= i < chars@.len() && (is_control_char(#[trigger] chars@[i]) || is_reserved_char(
                chars@[i],
            )),
{
    let mut i: usize = 0;
    while i < chars.len()
        invariant
            i <= chars@.len(),
            forall|k: int|
                0 <= k < i ==> !is_control_char(#[trigger] chars@[k]) && !is_reserved_char(
                    chars@[k],
                ),
        decreases chars@.len() - i,
    {
        let ch = chars[i];
        let code: u32 = ch as u32;
        if code <= 0x1f || (0x7f <= code && code <= 0x9f) || ch == '\\' || ch == ':' || ch == '<'
            || ch == '>' || ch == '"' || ch == '|' || ch == '?' || ch == '*' {
            return true;
        }
        i = i + 1;
    }
    false
}

/// A text with its ASCII letters in uppercase.
pub fn upper_chars(chars: &Vec<char>) -> (result: Vec<char>)
    ensures
        result@ == upper(chars@),
{
    let mut result: Vec<char> = Vec::new();
    let mut i: usize = 0;
    while i < chars.len()
        invariant
            i <= chars@.len(),
            result@ == upper(chars@.take(i as int)),
        decreases chars@.len() - i,
    {
        let ch = chars[i];
        if 'a' <= ch && ch <= 'z' {
            result.push(((ch as u8) - 32) as char);
        } else {
            result.push(ch);
        }
        i = i + 1;
        assert(result@ =~= upper(chars@.take(i as int)));
    }
    assert(chars@.take(chars@.len() as int) =~= chars@);
    result
}

fn names_device(name: &Vec<char>) -> (device: bool)
    ensures
        device == is_device(name@),
{
    if chars_are(name, "CON") || chars_are(name, "PRN") || chars_are(name, "AUX") || chars_are(
        name,
        "NUL",
    ) {
        return true;
    }
    if name.len() != 4 {
        return false;
    }
    let front = to_chars(&from_chars(name, 0, 3));
    assert(front@ =~= name@.take(3));
    if !chars_are(&front, "COM") && !chars_are(&front, "LPT") {
        return false;
    }
    let last = name[3];
    ('1' <= last && last <= '9') || last == '¹' || last == '²' || last == '³'
}

fn check_component(component: &str) -> (result: Result<()>)
    ensures
        decided(result, component_refusal(component@)),
{
    let chars = to_chars(component);
    let raised = upper_chars(&chars);
    if chars.len() == 0 || chars_are(&chars, ".") || chars_are(&chars, "..")
        || component.as_bytes().len() > MAX_COMPONENT_BYTES || chars[chars.len() - 1] == '.'
        || chars[chars.len() - 1] == ' ' || chars_are(&raised, ".P2P-DESKTOP")
        || has_forbidden_char(&chars) {
        return Err(failure("桌面相对路径包含非法组件"));
    }
    let parts = split_text(component, '.');
    proof {
        crate::text::lemma_pieces_nonempty(component@, '.');
        assert(views(parts@)[0] == parts@[0]@);
    }
    let name = upper_chars(&to_chars(&parts[0]));
    if names_device(&name) {
        return Err(failure("桌面相对路径包含保留设备名"));
    }
    Ok(())
}

/// Only portable relative names selected by the sender cross this boundary.
pub fn validate_relative_path(path: &str) -> (result: Result<()>)
    ensures
        decided(result, path_refusal(path@)),
{
    let parts = split_text(path, '/');
    if path.is_empty() || path.as_bytes().len() > MAX_PATH_BYTES || parts.len() > MAX_PATH_DEPTH {
        return Err(failure("桌面相对路径长度或深度非法"));
    }
    let ghost components = pieces(path@, '/');
    let mut i: usize = 0;
    assert(components.take(0) =~= Seq::<Seq<char>>::empty());
    while i < parts.len()
        invariant
            i <= parts@.len(),
            views(parts@) == components,
            components == pieces(path@, '/'),
            components_refusal(components.take(i as int)) is None,
            path_refusal(path@) == components_refusal(components),
        decreases parts@.len() - i,
    {
        assert(components[i as int] == parts@[i as int]@);
        assert(components.take(i + 1).drop_last() =~= components.take(i as int));
        match check_component(&parts[i]) {
            Ok(()) => {},
            Err(error) => {
                proof {
                    lemma_first_refusal(components, i + 1);
                }
                return Err(error);
            },
        }
        i = i + 1;
    }
    assert(components.take(components.len() as int) =~= components);
    Ok(())
}

/// The first refusal among some components is the first among all of them.
proof fn lemma_first_refusal(components: Seq<Seq<char>>, count: int)
    requires
        0 <= count <= components.len(),
        components_refusal(components.take(count)) is Some,
    ensures
        components_refusal(components) == components_refusal(components.take(count)),
    decreases components.len(),
{
    if count == components.len() {
        assert(components.take(count) =~= components);
    } else {
        assert(components.drop_last().take(count) =~= components.take(count));
        lemma_first_refusal(components.drop_last(), count);
    }
}

/// Every component of a portable path is portable.
pub proof fn portable_paths_have_portable_components(path: Seq<char>, index: int)
    requires
        is_portable(path),
        0 <= index < pieces(path, '/').len(),
    ensures
        component_refusal(pieces(path, '/')[index]) is None,
{
    lemma_accepted_components(pieces(path, '/'), index);
}

proof fn lemma_accepted_components(components: Seq<Seq<char>>, index: int)
    requires
        components_refusal(components) is None,
        0 <= index < components.len(),
    ensures
        component_refusal(components[index]) is None,
    decreases components.len(),
{
    if index < components.len() - 1 {
        lemma_accepted_components(components.drop_last(), index);
    }
}

/// A portable path is relative, never climbs and never enters the private directory.
pub proof fn portable_paths_stay_inside(path: Seq<char>, index: int)
    requires
        is_portable(path),
        0 <= index < pieces(path, '/').len(),
    ensures
        path[0] != '/',
        pieces(path, '/')[index].len() > 0,
        pieces(path, '/')[index] != "."@,
        pieces(path, '/')[index] != ".."@,
        !is_internal(pieces(path, '/')[index]),
{
    portable_paths_have_portable_components(path, index);
    portable_paths_have_portable_components(path, 0);
    if path[0] == '/' {
        lemma_leading_separator(path);
    }
}

proof fn lemma_leading_separator(path: Seq<char>)
    requires
        path.len() > 0,
        path[0] == '/',
    ensures
        pieces(path, '/').len() >= 2,
        pieces(path, '/')[0] == Seq::<char>::empty(),
    decreases path.len(),
{
    if path.len() == 1 {
        assert(path.drop_last() =~= Seq::<char>::empty());
        assert(pieces(path.drop_last(), '/') =~= seq![Seq::<char>::empty()]);
    } else {
        lemma_leading_separator(path.drop_last());
    }
}

/// A path is portable exactly if it is not too long or too deep and each of its components
/// is.
pub proof fn paths_are_judged_by_component(path: Seq<char>)
    ensures
        path_refusal(path) is None <==> {
            &&& path.len() > 0
            &&& encode_utf8(path).len() <= 4096
            &&& pieces(path, '/').len() <= 64
            &&& forall|k: int|
                0 <= k < pieces(path, '/').len() ==> component_refusal(
                    #[trigger] pieces(path, '/')[k],
                ) is None
        },
{
    let components = pieces(path, '/');
    if components_refusal(components) is None {
        assert forall|k: int| 0 <= k < components.len() implies component_refusal(
            #[trigger] components[k],
        ) is None by {
            lemma_accepted_components(components, k);
        }
    }
    if forall|k: int|
        0 <= k < components.len() ==> component_refusal(#[trigger] components[k]) is None {
        lemma_all_accepted(components);
    }
}

proof fn lemma_all_accepted(components: Seq<Seq<char>>)
    requires
        forall|k: int|
            0 <= k < components.len() ==> component_refusal(#[trigger] components[k]) is None,
    ensures
        components_refusal(components) is None,
    decreases components.len(),
{
    if components.len() > 0 {
        let front = components.drop_last();
        assert forall|k: int| 0 <= k < front.len() implies component_refusal(
            #[trigger] front[k],
        ) is None by {
            assert(component_refusal(components[k]) is None);
        }
        lemma_all_accepted(front);
        assert(component_refusal(components[components.len() - 1]) is None);
    }
}

/// Names that some system cannot hold or takes for something else are refused: the
/// directory itself and its parent, what ends in a dot or a space, control characters, and
/// the characters that are reserved somewhere.
pub proof fn troublesome_names_are_refused(component: Seq<char>, at: int)
    ensures
        component.len() == 0 ==> component_refusal(component) is Some,
        component == "."@ || component == ".."@ ==> component_refusal(component) is Some,
        encode_utf8(component).len() > 255 ==> component_refusal(component) is Some,
        component.len() > 0 && (component.last() == '.' || component.last() == ' ')
            ==> component_refusal(component) is Some,
        0 <= at < component.len() && ((component[at] as u32) < 0x20 || 0x7f <= (component[at] as u32)
            <= 0x9f) ==> component_refusal(component) is Some,
        0 <= at < component.len() && (component[at] == '\\' || component[at] == ':' || component[at]
            == '<' || component[at] == '>' || component[at] == '"' || component[at] == '|'
            || component[at] == '?' || component[at] == '*') ==> component_refusal(
            component,
        ) is Some,
        upper(component) == ".P2P-DESKTOP"@ ==> component_refusal(component) is Some,
{
    if 0 <= at < component.len() {
        let ch = component[at];
        assert(is_control_char(component[at]) == is_control_char(ch));
    }
}

/// A device is refused under its name in any case and with any extension.
pub proof fn devices_are_refused(component: Seq<char>)
    ensures
        ({
            let name = upper(pieces(component, '.')[0]);
            name == "CON"@ || name == "PRN"@ || name == "AUX"@ || name == "NUL"@ || (name.len() == 4
                && (name.take(3) == "COM"@ || name.take(3) == "LPT"@) && ('1' <= name[3] <= '9'
                || name[3] == '¹' || name[3] == '²' || name[3] == '³')) ==> component_refusal(
                component,
            ) is Some
        }),
{
}

/// Ordinary names are portable: letters, digits, hyphens and underscores, longer than any
/// device's name.
pub proof fn ordinary_names_are_portable(component: Seq<char>)
    requires
        component.len() > 4,
        encode_utf8(component).len() <= 255,
        forall|i: int|
            0 <= i < component.len() ==> ('a' <= #[trigger] component[i] <= 'z') || ('A'
                <= component[i] <= 'Z') || ('0' <= component[i] <= '9') || component[i] == '-'
                || component[i] == '_',
    ensures
        component_refusal(component) is None,
{
    reveal_strlit(".");
    reveal_strlit("..");
    reveal_strlit(".P2P-DESKTOP");
    reveal_strlit("CON");
    reveal_strlit("PRN");
    reveal_strlit("AUX");
    reveal_strlit("NUL");
    crate::text::unbroken_texts_are_one_piece(component, '.');
    assert(upper(component)[0] == ascii_upper(component[0]));
    assert(component[component.len() - 1] == component.last());
    assert(upper(stem(component)).len() == component.len());
}

} // verus!

//! Names below a directory: when two of them collide, and what may be opened.

use vstd::prelude::*;

use crate::error::{decided, failure, Error, Result};
use crate::identity::{be_bytes, hex_encode, hex_text, u128_to_bytes};
use crate::paths::{path_refusal, validate_relative_path};
use crate::text::{
    from_chars, join_text, lemma_pieces_nonempty, pieces, same_text, split_text, views,
};

verus! {

/// The most entries of a directory that are looked at.
pub const MAX_DIRECTORY_ENTRIES: usize = 65536;

/// The largest journal, in bytes.
pub const MAX_JOURNAL_BYTES: usize = 65536;

/// A refusal with a fixed message.
pub fn fail(message: &str) -> (error: Error)
    ensures
        error.refuses(message@),
{
    failure(message)
}

/// The canonical composition (NFC) of a text.
pub uninterp spec fn composed(text: Seq<char>) -> Seq<char>;

/// `UnicodeNormalization::nfc` gives the canonical composition of a text. What that
/// is follows from the Unicode tables of the crate; only its name is used here.
#[verifier::external_body]
fn compose(text: &str) -> (result: Vec<char>)
    ensures
        result@ == composed(text@),
{
    unicode_normalization::UnicodeNormalization::nfc(text).collect()
}

/// The upper-case form of a character.
pub uninterp spec fn upper_form(ch: char) -> Seq<char>;

/// `char::to_uppercase` gives the upper-case form of a character, which may be longer
/// than one. It follows from the Unicode tables; only its name is used here.
#[verifier::external_body]
fn upper_chars_of(ch: char) -> (result: Vec<char>)
    ensures
        result@ == upper_form(ch),
{
    ch.to_uppercase().collect()
}

/// The lower-case form of a character.
pub uninterp spec fn lower_form(ch: char) -> Seq<char>;

/// `char::to_lowercase` gives the lower-case form of a character, which may be longer
/// than one. It follows from the Unicode tables; only its name is used here.
#[verifier::external_body]
fn lower_chars_of(ch: char) -> (result: Vec<char>)
    ensures
        result@ == lower_form(ch),
{
    ch.to_lowercase().collect()
}

/// Some texts, one after the other.
pub open spec fn joined(texts: Seq<Seq<char>>) -> Seq<char>
    decreases texts.len(),
{
    if texts.len() == 0 {
        Seq::empty()
    } else {
        joined(texts.drop_last()) + texts.last()
    }
}

/// Every character replaced by its upper-case form.
pub open spec fn uppered(text: Seq<char>) -> Seq<char> {
    joined(text.map_values(|ch: char| upper_form(ch)))
}

/// Every character replaced by its lower-case form.
pub open spec fn lowered(text: Seq<char>) -> Seq<char> {
    joined(text.map_values(|ch: char| lower_form(ch)))
}

/// What a name is compared by: its composition without regard to case. Going through
/// upper case first makes characters meet that share only that form.
pub open spec fn key_of(name: Seq<char>) -> Seq<char> {
    lowered(uppered(composed(name)))
}

fn append_chars(list: &mut Vec<char>, more: &Vec<char>)
    ensures
        final(list)@ == old(list)@ + more@,
{
    let ghost before = list@;
    let mut i: usize = 0;
    assert(before + more@.take(0) =~= before);
    while i < more.len()
        invariant
            i <= more@.len(),
            list@ == before + more@.take(i as int),
        decreases more@.len() - i,
    {
        list.push(more[i]);
        i = i + 1;
        assert(list@ =~= before + more@.take(i as int));
    }
    assert(more@.take(i as int) =~= more@);
}

/// The characters of some texts.
pub open spec fn char_views(texts: Seq<Vec<char>>) -> Seq<Seq<char>> {
    texts.map_values(|text: Vec<char>| text@)
}

/// Some texts, one after the other.
pub fn join_forms(forms: &Vec<Vec<char>>) -> (text: Vec<char>)
    ensures
        text@ == joined(char_views(forms@)),
{
    let ghost all = char_views(forms@);
    let mut text: Vec<char> = Vec::new();
    let mut i: usize = 0;
    assert(all.take(0) =~= Seq::<Seq<char>>::empty());
    while i < forms.len()
        invariant
            i <= forms@.len(),
            all == char_views(forms@),
            text@ == joined(all.take(i as int)),
        decreases forms@.len() - i,
    {
        assert(all.take(i + 1).drop_last() =~= all.take(i as int));
        append_chars(&mut text, &forms[i]);
        i = i + 1;
    }
    assert(all.take(i as int) =~= all);
    text
}

fn upper_text(chars: &Vec<char>) -> (text: Vec<char>)
    ensures
        text@ == uppered(chars@),
{
    let mut forms: Vec<Vec<char>> = Vec::new();
    let mut i: usize = 0;
    while i < chars.len()
        invariant
            i <= chars@.len(),
            forms@.len() == i,
            forall|k: int| 0 <= k < i ==> (#[trigger] forms@[k])@ == upper_form(chars@[k]),
        decreases chars@.len() - i,
    {
        forms.push(upper_chars_of(chars[i]));
        i = i + 1;
    }
    assert(char_views(forms@) =~= chars@.map_values(|ch: char| upper_form(ch)));
    join_forms(&forms)
}

fn lower_text(chars: &Vec<char>) -> (text: Vec<char>)
    ensures
        text@ == lowered(chars@),
{
    let mut forms: Vec<Vec<char>> = Vec::new();
    let mut i: usize = 0;
    while i < chars.len()
        invariant
            i <= chars@.len(),
            forms@.len() == i,
            forall|k: int| 0 <= k < i ==> (#[trigger] forms@[k])@ == lower_form(chars@[k]),
        decreases chars@.len() - i,
    {
        forms.push(lower_chars_of(chars[i]));
        i = i + 1;
    }
    assert(char_views(forms@) =~= chars@.map_values(|ch: char| lower_form(ch)));
    join_forms(&forms)
}

/// What a composed name is compared by.
pub fn fold_key(composed: &Vec<char>) -> (key: String)
    ensures
        key@ == lowered(uppered(composed@)),
{
    let upper = upper_text(composed);
    let lower = lower_text(&upper);
    assert(lower@.subrange(0, lower@.len() as int) =~= lower@);
    from_chars(&lower, 0, lower.len())
}

/// What a name is compared by, on every platform.
pub fn name_key(name: &str) -> (key: String)
    ensures
        key@ == key_of(name@),
{
    fold_key(&compose(name))
}

/// Whether another name would be confused with this one.
pub open spec fn collides(existing: Seq<char>, name: Seq<char>) -> bool {
    existing != name && key_of(existing) == key_of(name)
}

/// Looks through the entries of a directory for a name that would be confused with
/// the wanted one.
#[derive(Debug)]
pub struct AliasScan {
    pub name: String,
    pub key: String,
    pub seen: usize,
}

impl AliasScan {
    /// The key belongs to the name.
    pub open spec fn valid(self) -> bool {
        self.key@ == key_of(self.name@)
    }

    /// Why an entry stops the search.
    pub open spec fn refusal(self, existing: Option<Seq<char>>) -> Option<Seq<char>> {
        if self.seen >= MAX_DIRECTORY_ENTRIES {
            Some("目录条目超过扫描上限"@)
        } else {
            match existing {
                None => Some("目录包含不支持的路径编码"@),
                Some(text) => if collides(text, self.name@) {
                    Some("路径存在大小写或 Unicode 规范化冲突"@)
                } else {
                    None
                },
            }
        }
    }

    /// Starts with no entry seen.
    pub fn new(name: &str) -> (scan: AliasScan)
        ensures
            scan.valid(),
            scan.name@ == name@,
            scan.seen == 0,
    {
        AliasScan { name: name.to_owned(), key: name_key(name), seen: 0 }
    }

    /// Takes the next entry; one whose name is not Unicode has none.
    pub fn reject_alias(&mut self, existing: Option<&str>) -> (result: Result<()>)
        requires
            old(self).valid(),
        ensures
            decided(
                result,
                old(self).refusal(
                    match existing {
                        Some(text) => Some(text@),
                        None => None,
                    },
                ),
            ),
            final(self).valid(),
            final(self).name@ == old(self).name@,
            final(self).seen == if result is Ok {
                old(self).seen + 1
            } else {
                old(self).seen as int
            },
    {
        if self.seen >= MAX_DIRECTORY_ENTRIES {
            return Err(failure("目录条目超过扫描上限"));
        }
        match existing {
            None => {
                return Err(failure("目录包含不支持的路径编码"));
            },
            Some(text) => {
                if !same_text(text, &self.name) && same_text(&name_key(text), &self.key) {
                    return Err(failure("路径存在大小写或 Unicode 规范化冲突"));
                }
            },
        }
        self.seen = self.seen + 1;
        Ok(())
    }
}

/// What an entry of a directory is; a reparse point counts as a link.
#[derive(Clone, Copy, Debug, PartialEq, Eq, Structural)]
pub enum EntryKind {
    File,
    Directory,
    Link,
    Other,
}

/// Why a directory cannot be a root.
pub open spec fn root_refusal(kind: EntryKind, has_parent: bool, has_name: bool) -> Option<
    Seq<char>,
> {
    if kind != EntryKind::Directory {
        Some("目录或接收根不能是链接"@)
    } else if !has_parent {
        Some("不能选择文件系统根目录"@)
    } else if !has_name {
        Some("目录名称不可用"@)
    } else {
        None
    }
}

/// Whether a directory that was selected can be a root.
pub fn check_root(kind: EntryKind, has_parent: bool, has_name: bool) -> (result: Result<()>)
    ensures
        decided(result, root_refusal(kind, has_parent, has_name)),
{
    if kind != EntryKind::Directory {
        return Err(failure("目录或接收根不能是链接"));
    }
    if !has_parent {
        return Err(failure("不能选择文件系统根目录"));
    }
    if !has_name {
        return Err(failure("目录名称不可用"));
    }
    Ok(())
}

/// Whether an entry that was opened may be read or written.
pub fn check_file(kind: EntryKind) -> (result: Result<()>)
    ensures
        decided(
            result,
            if kind == EntryKind::File {
                None
            } else {
                Some("存储条目不是普通文件"@)
            },
        ),
{
    if kind == EntryKind::File {
        Ok(())
    } else {
        Err(failure("存储条目不是普通文件"))
    }
}

/// The directories that lead to an entry, outermost first, and the entry's own name.
pub fn split_parent(relative: &str) -> (result: Result<(Vec<String>, String)>)
    ensures
        decided(result, path_refusal(relative@)),
        result matches Ok((parts, name)) ==> views(parts@).push(name@) == pieces(relative@, '/'),
{
    validate_relative_path(relative)?;
    proof {
        lemma_pieces_nonempty(relative@, '/');
    }
    let mut parts = split_text(relative, '/');
    let ghost all = views(parts@);
    match parts.pop() {
        Some(name) => {
            assert(views(parts@).push(name@) =~= all);
            Ok((parts, name))
        },
        None => Err(failure("桌面相对路径长度或深度非法")),
    }
}

/// Which file a handle refers to, whatever it is called.
#[derive(Clone, Copy, Debug, PartialEq, Eq, Structural)]
pub struct FileIdentity {
    pub volume: u64,
    pub index: u64,
}

/// Whether a journal may be written or read.
pub fn check_journal_size(bytes: usize) -> (result: Result<()>)
    ensures
        decided(
            result,
            if bytes <= MAX_JOURNAL_BYTES {
                None
            } else {
                Some("发布 journal 超限"@)
            },
        ),
{
    if bytes > MAX_JOURNAL_BYTES {
        return Err(failure("发布 journal 超限"));
    }
    Ok(())
}

/// The name of a temporary journal.
pub fn journal_temp_name(random: u128) -> (name: String)
    ensures
        name@ == "journal-"@ + hex_text(be_bytes(random as nat, 16)) + ".tmp"@,
{
    let digits = hex_encode(&u128_to_bytes(random));
    let front = join_text("journal-", &digits);
    join_text(&front, ".tmp")
}

/// Names of the same composition collide unless they are the same.
pub proof fn compositions_collide(left: Seq<char>, right: Seq<char>)
    requires
        composed(left) == composed(right),
    ensures
        left == right || (collides(left, right) && collides(right, left)),
{
}

/// Colliding goes both ways, and no name collides with itself.
pub proof fn collisions_are_mutual(left: Seq<char>, right: Seq<char>)
    ensures
        collides(left, right) == collides(right, left),
        !collides(left, left),
{
}

/// Case is changed character by character, each to its own form.
pub proof fn forms_replace_characters(text: Seq<char>, ch: char)
    ensures
        uppered(Seq::empty()) == Seq::<char>::empty(),
        lowered(Seq::empty()) == Seq::<char>::empty(),
        uppered(text.push(ch)) == uppered(text) + upper_form(ch),
        lowered(text.push(ch)) == lowered(text) + lower_form(ch),
{
    let more = text.push(ch);
    assert(more.map_values(|ch: char| upper_form(ch)).drop_last() =~= text.map_values(
        |ch: char| upper_form(ch),
    ));
    assert(more.map_values(|ch: char| lower_form(ch)).drop_last() =~= text.map_values(
        |ch: char| lower_form(ch),
    ));
    assert(Seq::<char>::empty().map_values(|ch: char| upper_form(ch)) =~= Seq::<
        Seq<char>,
    >::empty());
    assert(Seq::<char>::empty().map_values(|ch: char| lower_form(ch)) =~= Seq::<
        Seq<char>,
    >::empty());
}

/// Different names collide exactly if they agree once composed and brought to one case.
pub proof fn case_and_composition_are_disregarded(left: Seq<char>, right: Seq<char>)
    ensures
        collides(left, right) <==> left != right && lowered(uppered(composed(left))) == lowered(
            uppered(composed(right)),
        ),
        left != right && uppered(composed(left)) == uppered(composed(right)) ==> collides(
            left,
            right,
        ),
        !collides(left, left),
{
}

/// A search passes over an entry exactly if its name is known, cannot be confused with the
/// wanted one, and is not past the limit.
pub proof fn aliases_stop_the_search(scan: AliasScan, existing: Seq<char>)
    ensures
        scan.refusal(None) is Some,
        scan.refusal(Some(existing)) is None <==> scan.seen < 65536 && (existing == scan.name@
            || key_of(existing) != key_of(scan.name@)),
{
}

/// A root is a directory proper with a name of its own inside another.
pub proof fn roots_are_named_directories(kind: EntryKind, has_parent: bool, has_name: bool)
    ensures
        root_refusal(kind, has_parent, has_name) is None <==> kind == EntryKind::Directory
            && has_parent && has_name,
{
}

} // verus!

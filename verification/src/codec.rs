//! The pieces that messages are written in: numbers, texts, digests and lists.
//!
//! Numbers take seven bits in each byte, low bits first, with the top bit set in all
//! bytes but the last. Texts and lists start with their length.

use vstd::prelude::*;
use vstd::slice::slice_subrange;
use vstd::utf8::{
    decode_utf8, encode_utf8, encode_utf8_decode_utf8, encode_utf8_valid_utf8, valid_utf8,
};

use crate::identity::{
    be_bytes, be_value, is_canonical, lemma_pow256_of_sixteen, lemma_value_of_bytes,
    u128_from_bytes, u128_to_bytes,
};
use crate::manifest::ChunkHash;
use crate::task_model::TaskId;
use crate::task_record::id_view;

verus! {

/// The bytes of a number.
pub open spec fn number_bytes(value: nat) -> Seq<u8>
    decreases value,
{
    if value < 128 {
        seq![value as u8]
    } else {
        seq![(value % 128 + 128) as u8] + number_bytes(value / 128)
    }
}

/// How many bytes the number in front takes; none when it does not end.
pub open spec fn number_size(bytes: Seq<u8>) -> nat
    decreases bytes.len(),
{
    if bytes.len() == 0 {
        0
    } else if bytes[0] < 128 {
        1
    } else if number_size(bytes.skip(1)) == 0 {
        0
    } else {
        1 + number_size(bytes.skip(1))
    }
}

/// The number that these bytes hold.
pub open spec fn number_value(bytes: Seq<u8>) -> nat
    decreases bytes.len(),
{
    if bytes.len() == 0 {
        0
    } else {
        bytes[0] as nat % 128 + 128 * number_value(bytes.skip(1))
    }
}

/// The number in front and what follows it, unless it does not end, takes more than
/// `most` bytes or is larger than `limit`.
pub open spec fn take_number(bytes: Seq<u8>, most: nat, limit: nat) -> Option<(nat, Seq<u8>)> {
    let size = number_size(bytes);
    let value = number_value(bytes.take(size as int));
    if size == 0 || size > most || value > limit {
        None
    } else {
        Some((value, bytes.skip(size as int)))
    }
}

/// The most bytes of a 16-bit number.
pub const MOST_16: usize = 3;

/// The most bytes of a 32-bit number.
pub const MOST_32: usize = 5;

/// The most bytes of a 64-bit number.
pub const MOST_64: usize = 10;

/// The most bytes of a length.
pub open spec fn most_of_length() -> nat {
    if usize::MAX == u64::MAX {
        MOST_64 as nat
    } else {
        MOST_32 as nat
    }
}

/// `postcard::to_allocvec` writes a `u64` with seven bits in each byte, low bits
/// first, and does not fail on one.
#[verifier::external_body]
fn serialized_number(value: u64) -> (result: Option<Vec<u8>>)
    ensures
        match result {
            Some(bytes) => bytes@ == number_bytes(value as nat),
            None => false,
        },
{
    postcard::to_allocvec(&value).ok()
}

/// `postcard::take_from_bytes` reads a `u64` of at most ten bytes, seven bits from each,
/// low bits first, and returns what follows. It fails on a number that does not end
/// within ten bytes or does not fit.
#[verifier::external_body]
fn deserialized_number(bytes: &[u8]) -> (result: Option<(u64, &[u8])>)
    ensures
        match take_number(bytes@, MOST_64 as nat, u64::MAX as nat) {
            None => result is None,
            Some((value, rest)) => result matches Some((number, left)) && number == value
                && left@ == rest,
        },
{
    postcard::take_from_bytes::<u64>(bytes).ok()
}

/// `String::from_utf8` accepts exactly the UTF-8 forms of texts.
#[verifier::external_body]
fn text_of_utf8(bytes: Vec<u8>) -> (text: Option<String>)
    ensures
        match text {
            Some(read) => valid_utf8(bytes@) && encode_utf8(read@) == bytes@,
            None => !valid_utf8(bytes@),
        },
{
    String::from_utf8(bytes).ok()
}

proof fn lemma_number_size_bounded(bytes: Seq<u8>)
    ensures
        number_size(bytes) <= bytes.len(),
    decreases bytes.len(),
{
    if bytes.len() > 0 {
        lemma_number_size_bounded(bytes.skip(1));
    }
}

/// A written number reads back, whatever follows it.
pub proof fn lemma_number_reads_back(value: nat, rest: Seq<u8>)
    ensures
        ({
            let written = number_bytes(value);
            &&& number_size(written + rest) == written.len()
            &&& (written + rest).take(written.len() as int) == written
            &&& (written + rest).skip(written.len() as int) == rest
            &&& number_value(written) == value
            &&& written.len() > 0
        }),
    decreases value,
{
    let written = number_bytes(value);
    let whole = written + rest;
    assert(whole.take(written.len() as int) =~= written);
    assert(whole.skip(written.len() as int) =~= rest);
    if value < 128 {
        assert(written.skip(1) =~= Seq::<u8>::empty());
        assert(number_value(written.skip(1)) == 0);
    } else {
        lemma_number_reads_back(value / 128, rest);
        assert(whole.skip(1) =~= number_bytes(value / 128) + rest);
        assert(written.skip(1) =~= number_bytes(value / 128));
        assert(written[0] == (value % 128 + 128) as u8);
        assert((value % 128 + 128) as u8 as nat % 128 == value % 128);
    }
}

/// A number below 128 to the power `size` takes at most `size` bytes.
pub open spec fn pow128(size: nat) -> nat
    decreases size,
{
    if size == 0 {
        1
    } else {
        128 * pow128((size - 1) as nat)
    }
}

proof fn lemma_number_length(value: nat, size: nat)
    requires
        size > 0,
        value < pow128(size),
    ensures
        number_bytes(value).len() <= size,
    decreases value,
{
    if value >= 128 {
        if size == 1 {
            reveal_with_fuel(pow128, 2);
        } else {
            assert(value / 128 < pow128((size - 1) as nat)) by (nonlinear_arith)
                requires
                    value < 128 * pow128((size - 1) as nat),
            ;
            lemma_number_length(value / 128, (size - 1) as nat);
        }
    }
}

/// What the lengths of numbers are bounded by.
proof fn lemma_powers()
    ensures
        pow128(3) == 0x20_0000,
        pow128(5) == 0x8_0000_0000,
        pow128(10) == 0x40_0000_0000_0000_0000,
{
    reveal_with_fuel(pow128, 11);
}

/// A number reads back under any limit that admits it.
pub proof fn lemma_take_number(value: nat, rest: Seq<u8>, most: nat, limit: nat)
    requires
        value <= limit,
        limit <= u16::MAX && most == MOST_16 || limit <= u32::MAX && most == MOST_32 || limit
            <= u64::MAX && most == MOST_64,
    ensures
        take_number(number_bytes(value) + rest, most, limit) == Some((value, rest)),
{
    lemma_number_reads_back(value, rest);
    lemma_powers();
    lemma_number_length(value, most);
}

/// Appends some bytes.
pub fn put_slice(out: &mut Vec<u8>, bytes: &[u8])
    ensures
        final(out)@ == old(out)@ + bytes@,
{
    out.extend_from_slice(bytes);
    assert(out@ =~= old(out)@ + bytes@);
}

/// Appends a number.
pub fn put_number(out: &mut Vec<u8>, value: u64)
    ensures
        final(out)@ == old(out)@ + number_bytes(value as nat),
{
    match serialized_number(value) {
        Some(bytes) => put_slice(out, bytes.as_slice()),
        None => {},
    }
}

/// Reads a number of at most `most` bytes and at most `limit`.
pub fn read_number(bytes: &[u8], most: usize, limit: u64) -> (result: Option<(u64, &[u8])>)
    requires
        most <= MOST_64,
    ensures
        match take_number(bytes@, most as nat, limit as nat) {
            None => result is None,
            Some((value, rest)) => result matches Some((number, left)) && number == value
                && left@ == rest,
        },
{
    proof {
        lemma_number_size_bounded(bytes@);
    }
    match deserialized_number(bytes) {
        None => None,
        Some((number, left)) => {
            let size: usize = bytes.len() - left.len();
            if size > most || number > limit {
                None
            } else {
                Some((number, left))
            }
        },
    }
}

/// Reads a length.
pub fn read_length(bytes: &[u8]) -> (result: Option<(usize, &[u8])>)
    ensures
        match take_number(bytes@, most_of_length(), usize::MAX as nat) {
            None => result is None,
            Some((value, rest)) => result matches Some((number, left)) && number == value
                && left@ == rest,
        },
{
    let most: usize = if usize::MAX as u64 == u64::MAX {
        MOST_64
    } else {
        MOST_32
    };
    match read_number(bytes, most, usize::MAX as u64) {
        None => None,
        Some((number, left)) => Some((number as usize, left)),
    }
}

/// The first `count` bytes and what follows them.
pub open spec fn take_fixed(bytes: Seq<u8>, count: nat) -> Option<(Seq<u8>, Seq<u8>)> {
    if bytes.len() < count {
        None
    } else {
        Some((bytes.take(count as int), bytes.skip(count as int)))
    }
}

/// Reads exactly `count` bytes.
pub fn read_fixed(bytes: &[u8], count: usize) -> (result: Option<(Vec<u8>, &[u8])>)
    ensures
        match take_fixed(bytes@, count as nat) {
            None => result is None,
            Some((front, rest)) => result matches Some((found, left)) && found@ == front && left@
                == rest,
        },
{
    if bytes.len() < count {
        return None;
    }
    let front = slice_subrange(bytes, 0, count);
    let left = slice_subrange(bytes, count, bytes.len());
    let mut found: Vec<u8> = Vec::new();
    put_slice(&mut found, front);
    proof {
        assert(found@ =~= bytes@.take(count as int));
        assert(left@ =~= bytes@.skip(count as int));
    }
    Some((found, left))
}

proof fn lemma_take_fixed(front: Seq<u8>, rest: Seq<u8>)
    ensures
        take_fixed(front + rest, front.len()) == Some((front, rest)),
{
    assert((front + rest).take(front.len() as int) =~= front);
    assert((front + rest).skip(front.len() as int) =~= rest);
}

/// Some bytes behind their length.
pub open spec fn blob_bytes(content: Seq<u8>) -> Seq<u8> {
    number_bytes(content.len()) + content
}

/// The bytes in front that follow their length.
pub open spec fn take_blob(bytes: Seq<u8>) -> Option<(Seq<u8>, Seq<u8>)> {
    match take_number(bytes, most_of_length(), usize::MAX as nat) {
        None => None,
        Some((length, rest)) => take_fixed(rest, length),
    }
}

/// Appends some bytes behind their length.
pub fn put_blob(out: &mut Vec<u8>, content: &[u8])
    ensures
        final(out)@ == old(out)@ + blob_bytes(content@),
{
    put_number(out, content.len() as u64);
    put_slice(out, content);
    assert(out@ =~= old(out)@ + blob_bytes(content@));
}

/// Reads bytes that follow their length.
pub fn read_blob(bytes: &[u8]) -> (result: Option<(Vec<u8>, &[u8])>)
    ensures
        match take_blob(bytes@) {
            None => result is None,
            Some((content, rest)) => result matches Some((found, left)) && found@ == content
                && left@ == rest,
        },
{
    match read_length(bytes) {
        None => None,
        Some((length, left)) => read_fixed(left, length),
    }
}

/// Written bytes read back.
pub proof fn lemma_take_blob(content: Seq<u8>, rest: Seq<u8>)
    requires
        content.len() <= usize::MAX,
    ensures
        take_blob(blob_bytes(content) + rest) == Some((content, rest)),
{
    assert(blob_bytes(content) + rest =~= number_bytes(content.len()) + (content + rest));
    lemma_take_number(content.len(), content + rest, most_of_length(), usize::MAX as nat);
    lemma_take_fixed(content, rest);
}

/// A text behind its length in bytes.
pub open spec fn text_bytes(text: Seq<char>) -> Seq<u8> {
    blob_bytes(encode_utf8(text))
}

/// The text in front that follows its length.
pub open spec fn take_text(bytes: Seq<u8>) -> Option<(Seq<char>, Seq<u8>)> {
    match take_blob(bytes) {
        None => None,
        Some((content, rest)) => if valid_utf8(content) {
            Some((decode_utf8(content), rest))
        } else {
            None
        },
    }
}

/// Appends a text.
pub fn put_text(out: &mut Vec<u8>, text: &str)
    ensures
        final(out)@ == old(out)@ + text_bytes(text@),
{
    put_blob(out, text.as_bytes());
}

/// Reads a text.
pub fn read_text(bytes: &[u8]) -> (result: Option<(String, &[u8])>)
    ensures
        match take_text(bytes@) {
            None => result is None,
            Some((text, rest)) => result matches Some((found, left)) && found@ == text && left@
                == rest,
        },
{
    match read_blob(bytes) {
        None => None,
        Some((content, left)) => match text_of_utf8(content) {
            None => None,
            Some(text) => {
                proof {
                    encode_utf8_decode_utf8(text@);
                }
                Some((text, left))
            },
        },
    }
}

/// A written text reads back.
pub proof fn lemma_take_text(text: Seq<char>, rest: Seq<u8>)
    requires
        encode_utf8(text).len() <= usize::MAX,
    ensures
        take_text(text_bytes(text) + rest) == Some((text, rest)),
{
    lemma_take_blob(encode_utf8(text), rest);
    encode_utf8_valid_utf8(text);
    encode_utf8_decode_utf8(text);
}

/// The identifier in front.
pub open spec fn take_id(bytes: Seq<u8>) -> Option<(Seq<char>, Seq<u8>)> {
    match take_text(bytes) {
        None => None,
        Some((text, rest)) => if is_canonical(text, 32) {
            Some((text, rest))
        } else {
            None
        },
    }
}

/// Reads an identifier.
pub fn read_id(bytes: &[u8]) -> (result: Option<(TaskId, &[u8])>)
    ensures
        match take_id(bytes@) {
            None => result is None,
            Some((id, rest)) => result matches Some((found, left)) && found@ == id && left@
                == rest,
        },
{
    match read_text(bytes) {
        None => None,
        Some((text, left)) => match TaskId::parse(text.as_str()) {
            Ok(id) => Some((id, left)),
            Err(_) => None,
        },
    }
}

/// A canonical text is as long in bytes as in characters.
proof fn lemma_canonical_length(text: Seq<char>)
    requires
        is_canonical(text, 32),
    ensures
        encode_utf8(text).len() == 32,
{
    assert(vstd::utf8::is_ascii_chars(text));
    vstd::utf8::is_ascii_chars_encode_utf8(text);
}

/// A written identifier reads back.
pub proof fn lemma_take_id(id: Seq<char>, rest: Seq<u8>)
    requires
        is_canonical(id, 32),
    ensures
        take_id(text_bytes(id) + rest) == Some((id, rest)),
{
    lemma_canonical_length(id);
    lemma_take_text(id, rest);
}

/// An identifier that may be missing: a byte that says so, then the identifier.
pub open spec fn maybe_id_bytes(id: Option<Seq<char>>) -> Seq<u8> {
    match id {
        None => seq![0u8],
        Some(text) => seq![1u8] + text_bytes(text),
    }
}

/// The identifier in front, if there is one.
pub open spec fn take_maybe_id(bytes: Seq<u8>) -> Option<(Option<Seq<char>>, Seq<u8>)> {
    if bytes.len() == 0 || bytes[0] > 1 {
        None
    } else if bytes[0] == 0 {
        Some((None, bytes.skip(1)))
    } else {
        match take_id(bytes.skip(1)) {
            None => None,
            Some((id, rest)) => Some((Some(id), rest)),
        }
    }
}

/// Appends an identifier that may be missing.
pub fn put_maybe_id(out: &mut Vec<u8>, id: &Option<TaskId>)
    ensures
        final(out)@ == old(out)@ + maybe_id_bytes(id_view(*id)),
{
    match id {
        None => {
            out.push(0);
            assert(out@ =~= old(out)@ + seq![0u8]);
        },
        Some(found) => {
            out.push(1);
            put_text(out, found.as_str());
            assert(out@ =~= old(out)@ + (seq![1u8] + text_bytes(found@)));
        },
    }
}

/// Reads an identifier that may be missing.
pub fn read_maybe_id(bytes: &[u8]) -> (result: Option<(Option<TaskId>, &[u8])>)
    ensures
        match take_maybe_id(bytes@) {
            None => result is None,
            Some((id, rest)) => result matches Some((found, left)) && id_view(found) == id
                && left@ == rest,
        },
{
    if bytes.len() == 0 || bytes[0] > 1 {
        return None;
    }
    let left = slice_subrange(bytes, 1, bytes.len());
    assert(left@ =~= bytes@.skip(1));
    if bytes[0] == 0 {
        return Some((None, left));
    }
    match read_id(left) {
        None => None,
        Some((id, rest)) => Some((Some(id), rest)),
    }
}

/// A written identifier that may be missing reads back.
pub proof fn lemma_take_maybe_id(id: Option<Seq<char>>, rest: Seq<u8>)
    requires
        id matches Some(text) ==> is_canonical(text, 32),
    ensures
        take_maybe_id(maybe_id_bytes(id) + rest) == Some((id, rest)),
{
    let whole = maybe_id_bytes(id) + rest;
    match id {
        None => {
            assert(whole.skip(1) =~= rest);
        },
        Some(text) => {
            assert(whole.skip(1) =~= text_bytes(text) + rest);
            lemma_take_id(text, rest);
        },
    }
}

/// The 128-bit value in front, big end first.
pub open spec fn take_wide(bytes: Seq<u8>) -> Option<(u128, Seq<u8>)> {
    match take_fixed(bytes, 16) {
        None => None,
        Some((front, rest)) => Some((be_value(front) as u128, rest)),
    }
}

/// Appends the sixteen bytes of a value.
pub fn put_wide(out: &mut Vec<u8>, value: u128)
    ensures
        final(out)@ == old(out)@ + be_bytes(value as nat, 16),
{
    let bytes = u128_to_bytes(value);
    put_slice(out, bytes.as_slice());
}

/// Reads sixteen bytes, big end first.
pub fn read_wide(bytes: &[u8]) -> (result: Option<(u128, &[u8])>)
    ensures
        match take_wide(bytes@) {
            None => result is None,
            Some((value, rest)) => result == Some((value, result.unwrap().1))
                && result.unwrap().1@ == rest,
        },
{
    match read_fixed(bytes, 16) {
        None => None,
        Some((front, left)) => Some((u128_from_bytes(&front), left)),
    }
}

/// A written value reads back.
pub proof fn lemma_take_wide(value: u128, rest: Seq<u8>)
    ensures
        take_wide(be_bytes(value as nat, 16) + rest) == Some((value, rest)),
{
    lemma_pow256_of_sixteen();
    lemma_value_of_bytes(value as nat, 16);
    lemma_take_fixed(be_bytes(value as nat, 16), rest);
}

/// The digest in front.
pub open spec fn take_hash(bytes: Seq<u8>) -> Option<(ChunkHash, Seq<u8>)> {
    match take_fixed(bytes, 32) {
        None => None,
        Some((front, rest)) => Some((ChunkHash::of_bytes(front), rest)),
    }
}

/// Appends a digest.
pub fn put_hash(out: &mut Vec<u8>, hash: &ChunkHash)
    ensures
        final(out)@ == old(out)@ + hash.bytes(),
{
    let bytes = hash.to_bytes();
    put_slice(out, bytes.as_slice());
}

/// Reads a digest.
pub fn read_hash(bytes: &[u8]) -> (result: Option<(ChunkHash, &[u8])>)
    ensures
        match take_hash(bytes@) {
            None => result is None,
            Some((hash, rest)) => result matches Some((found, left)) && found == hash && left@
                == rest,
        },
{
    match read_fixed(bytes, 32) {
        None => None,
        Some((front, left)) => Some((ChunkHash::from_bytes(&front), left)),
    }
}

/// A written digest reads back.
pub proof fn lemma_take_hash(hash: ChunkHash, rest: Seq<u8>)
    ensures
        take_hash(hash.bytes() + rest) == Some((hash, rest)),
        hash.bytes().len() == 32,
{
    lemma_pow256_of_sixteen();
    lemma_value_of_bytes(hash.high as nat, 16);
    lemma_value_of_bytes(hash.low as nat, 16);
    lemma_take_fixed(hash.bytes(), rest);
    assert(hash.bytes().subrange(0, 16) =~= be_bytes(hash.high as nat, 16));
    assert(hash.bytes().subrange(16, 32) =~= be_bytes(hash.low as nat, 16));
}

/// Digests one after another.
pub open spec fn hash_list_bytes(hashes: Seq<ChunkHash>) -> Seq<u8>
    decreases hashes.len(),
{
    if hashes.len() == 0 {
        Seq::empty()
    } else {
        hashes[0].bytes() + hash_list_bytes(hashes.skip(1))
    }
}

/// That many digests from the front.
pub open spec fn take_hash_list(bytes: Seq<u8>, count: nat) -> Option<(Seq<ChunkHash>, Seq<u8>)>
    decreases count,
{
    if count == 0 {
        Some((Seq::empty(), bytes))
    } else {
        match take_hash(bytes) {
            None => None,
            Some((first, rest)) => match take_hash_list(rest, (count - 1) as nat) {
                None => None,
                Some((others, left)) => Some((seq![first] + others, left)),
            },
        }
    }
}

/// Appends digests one after another.
pub fn put_hash_list(out: &mut Vec<u8>, hashes: &Vec<ChunkHash>)
    ensures
        final(out)@ == old(out)@ + hash_list_bytes(hashes@),
{
    let ghost before = out@;
    let mut index: usize = 0;
    assert(hashes@.skip(0) =~= hashes@);
    while index < hashes.len()
        invariant
            index <= hashes@.len(),
            out@ + hash_list_bytes(hashes@.skip(index as int)) == before + hash_list_bytes(hashes@),
        decreases hashes.len() - index,
    {
        let ghost written = out@;
        let ghost rest = hashes@.skip(index as int);
        put_hash(out, &hashes[index]);
        proof {
            assert(rest[0] == hashes@[index as int]);
            assert(rest.skip(1) =~= hashes@.skip(index + 1));
            assert(written + (rest[0].bytes() + hash_list_bytes(rest.skip(1))) =~= out@
                + hash_list_bytes(rest.skip(1)));
        }
        index = index + 1;
    }
    assert(hash_list_bytes(hashes@.skip(index as int)) =~= Seq::<u8>::empty());
    assert(out@ =~= before + hash_list_bytes(hashes@));
}

/// Reads that many digests.
pub fn read_hash_list(bytes: &[u8], count: usize) -> (result: Option<(Vec<ChunkHash>, &[u8])>)
    ensures
        match take_hash_list(bytes@, count as nat) {
            None => result is None,
            Some((hashes, rest)) => result matches Some((found, left)) && found@ == hashes
                && left@ == rest,
        },
{
    let mut hashes: Vec<ChunkHash> = Vec::new();
    let mut left: &[u8] = bytes;
    let mut index: usize = 0;
    while index < count
        invariant
            index <= count,
            match take_hash_list(left@, (count - index) as nat) {
                None => take_hash_list(bytes@, count as nat) is None,
                Some((others, rest)) => take_hash_list(bytes@, count as nat) == Some(
                    (hashes@ + others, rest),
                ),
            },
        decreases count - index,
    {
        let ghost before = hashes@;
        match read_hash(left) {
            None => {
                return None;
            },
            Some((hash, rest)) => {
                hashes.push(hash);
                left = rest;
                index = index + 1;
                proof {
                    match take_hash_list(left@, (count - index) as nat) {
                        None => {},
                        Some((others, behind)) => {
                            assert(before + (seq![hash] + others) =~= hashes@ + others);
                        },
                    }
                }
            },
        }
    }
    assert(hashes@ + Seq::<ChunkHash>::empty() =~= hashes@);
    Some((hashes, left))
}

/// Written digests read back.
pub proof fn lemma_take_hash_list(hashes: Seq<ChunkHash>, rest: Seq<u8>)
    ensures
        take_hash_list(hash_list_bytes(hashes) + rest, hashes.len()) == Some((hashes, rest)),
    decreases hashes.len(),
{
    if hashes.len() == 0 {
        assert(hash_list_bytes(hashes) + rest =~= rest);
        assert(hashes =~= Seq::<ChunkHash>::empty());
    } else {
        let behind = hash_list_bytes(hashes.skip(1)) + rest;
        assert(hash_list_bytes(hashes) + rest =~= hashes[0].bytes() + behind);
        lemma_take_hash(hashes[0], behind);
        lemma_take_hash_list(hashes.skip(1), rest);
        assert(seq![hashes[0]] + hashes.skip(1) =~= hashes);
    }
}

} // verus!

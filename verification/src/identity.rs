//! 128-bit node identities and their hexadecimal form.

use vstd::prelude::*;

use crate::error::{failure, Result};
use crate::text::{from_chars, to_chars};

verus! {

/// The lowercase hexadecimal digit of a value below sixteen.
pub open spec fn hex_char(value: int) -> char {
    if value < 10 {
        ((48 + value) as u8) as char
    } else {
        ((87 + value) as u8) as char
    }
}

/// The value of a hexadecimal digit of either case.
pub open spec fn hex_value(ch: char) -> Option<int> {
    if '0' <= ch <= '9' {
        Some(ch as int - 48)
    } else if 'a' <= ch <= 'f' {
        Some(ch as int - 87)
    } else if 'A' <= ch <= 'F' {
        Some(ch as int - 55)
    } else {
        None
    }
}

/// Two lowercase hexadecimal digits for every byte, high half first.
pub open spec fn hex_text(bytes: Seq<u8>) -> Seq<char> {
    Seq::new(
        2 * bytes.len(),
        |i: int|
            if i % 2 == 0 {
                hex_char(bytes[i / 2] as int / 16)
            } else {
                hex_char(bytes[i / 2] as int % 16)
            },
    )
}

/// Whether a text is an even number of hexadecimal digits of either case.
pub open spec fn is_hex(text: Seq<char>) -> bool {
    &&& text.len() % 2 == 0
    &&& forall|i: int| 0 <= i < text.len() ==> hex_value(#[trigger] text[i]) is Some
}

/// The bytes that a hexadecimal text stands for.
pub open spec fn hex_bytes(text: Seq<char>) -> Seq<u8> {
    Seq::new(
        text.len() / 2,
        |i: int| (16 * hex_value(text[2 * i])->0 + hex_value(text[2 * i + 1])->0) as u8,
    )
}

/// Whether a character is a decimal digit or one of `a` to `f`.
pub open spec fn is_canonical_char(ch: char) -> bool {
    '0' <= ch <= '9' || 'a' <= ch <= 'f'
}

/// Whether a text is exactly `digits` lowercase hexadecimal digits.
pub open spec fn is_canonical(text: Seq<char>, digits: nat) -> bool {
    &&& text.len() == digits
    &&& forall|i: int| 0 <= i < text.len() ==> is_canonical_char(#[trigger] text[i])
}

/// `hex::encode` writes two lowercase hexadecimal digits for every byte, in order.
#[verifier::external_body]
pub(crate) fn hex_encode(bytes: &Vec<u8>) -> (text: String)
    ensures
        text@ == hex_text(bytes@),
{
    hex::encode(bytes)
}

/// `hex::decode` accepts exactly the texts made of an even number of hexadecimal
/// digits of either case, and gives the bytes that they stand for.
#[verifier::external_body]
pub(crate) fn hex_decode(text: &str) -> (bytes: Option<Vec<u8>>)
    ensures
        bytes is Some <==> is_hex(text@),
        bytes matches Some(found) ==> found@ == hex_bytes(text@),
{
    hex::decode(text).ok()
}

/// `rand::random` gives a number that nothing else determines.
#[verifier::external_body]
pub(crate) fn random_number() -> u128 {
    rand::random::<u128>()
}

/// The big-endian value of some bytes.
pub open spec fn be_value(bytes: Seq<u8>) -> nat
    decreases bytes.len(),
{
    if bytes.len() == 0 {
        0
    } else {
        be_value(bytes.drop_last()) * 256 + bytes.last() as nat
    }
}

/// The last `count` big-endian bytes of a value.
pub open spec fn be_bytes(value: nat, count: nat) -> Seq<u8>
    decreases count,
{
    if count == 0 {
        Seq::empty()
    } else {
        be_bytes(value / 256, (count - 1) as nat).push((value % 256) as u8)
    }
}

/// Powers of 256.
pub open spec fn pow256(exponent: nat) -> nat
    decreases exponent,
{
    if exponent == 0 {
        1
    } else {
        256 * pow256((exponent - 1) as nat)
    }
}

/// Some bytes stand for a value that fits in that many bytes.
pub proof fn lemma_be_value_bound(bytes: Seq<u8>)
    ensures
        be_value(bytes) < pow256(bytes.len()),
    decreases bytes.len(),
{
    if bytes.len() > 0 {
        lemma_be_value_bound(bytes.drop_last());
    }
}

/// Taking a value apart and putting it together gives the value back.
pub proof fn lemma_value_of_bytes(value: nat, count: nat)
    requires
        value < pow256(count),
    ensures
        be_bytes(value, count).len() == count,
        be_value(be_bytes(value, count)) == value,
    decreases count,
{
    if count > 0 {
        lemma_value_of_bytes(value / 256, (count - 1) as nat);
        assert(be_bytes(value, count).drop_last() =~= be_bytes(value / 256, (count - 1) as nat));
    }
}

/// Putting bytes together and taking the value apart gives the bytes back.
pub proof fn lemma_bytes_of_value(bytes: Seq<u8>)
    ensures
        be_bytes(be_value(bytes), bytes.len()) == bytes,
    decreases bytes.len(),
{
    if bytes.len() > 0 {
        lemma_bytes_of_value(bytes.drop_last());
        assert(be_value(bytes) / 256 == be_value(bytes.drop_last()));
        assert(be_bytes(be_value(bytes), bytes.len()) =~= bytes);
    } else {
        assert(be_bytes(be_value(bytes), bytes.len()) =~= bytes);
    }
}

/// Sixteen bytes hold every 128-bit value.
pub proof fn lemma_pow256_of_sixteen()
    ensures
        pow256(16) == u128::MAX + 1,
        forall|k: nat| k <= 16 ==> #[trigger] pow256(k) <= u128::MAX + 1,
{
    reveal_with_fuel(pow256, 17);
    assert forall|k: nat| k <= 16 implies #[trigger] pow256(k) <= u128::MAX + 1 by {
        lemma_pow256_monotone(k, 16);
    }
}

proof fn lemma_pow256_monotone(low: nat, high: nat)
    requires
        low <= high,
    ensures
        pow256(low) <= pow256(high),
    decreases high,
{
    if low < high {
        lemma_pow256_monotone(low, (high - 1) as nat);
    }
}

/// The value of sixteen bytes, big end first.
pub fn u128_from_bytes(bytes: &Vec<u8>) -> (value: u128)
    requires
        bytes@.len() == 16,
    ensures
        value == be_value(bytes@),
{
    let mut value: u128 = 0;
    let mut i: usize = 0;
    while i < 16
        invariant
            i <= 16,
            bytes@.len() == 16,
            value == be_value(bytes@.take(i as int)),
        decreases 16 - i,
    {
        assert(bytes@.take(i + 1).drop_last() =~= bytes@.take(i as int));
        proof {
            lemma_be_value_bound(bytes@.take(i + 1));
            lemma_pow256_of_sixteen();
            assert(pow256((i + 1) as nat) <= u128::MAX + 1);
        }
        value = value * 256 + bytes[i] as u128;
        i = i + 1;
    }
    assert(bytes@.take(16) =~= bytes@);
    value
}

/// The sixteen bytes of a value, big end first.
pub fn u128_to_bytes(value: u128) -> (bytes: Vec<u8>)
    ensures
        bytes@ == be_bytes(value as nat, 16),
        bytes@.len() == 16,
{
    let mut bytes: Vec<u8> = Vec::new();
    let mut shift: usize = 16;
    let mut rest: [u8; 16] = [0; 16];
    let mut left: u128 = value;
    while shift > 0
        invariant
            shift <= 16,
            be_bytes(value as nat, 16) == be_bytes(left as nat, shift as nat)
                + rest@.subrange(shift as int, 16),
        decreases shift,
    {
        let ghost before = rest@;
        let ghost high = be_bytes(left as nat / 256, (shift - 1) as nat);
        let byte: u8 = (left % 256) as u8;
        rest[shift - 1] = byte;
        assert(rest@.subrange(shift - 1, 16) =~= seq![byte] + before.subrange(shift as int, 16));
        assert(high.push(byte) + before.subrange(shift as int, 16) =~= high + rest@.subrange(
            shift - 1,
            16,
        ));
        left = left / 256;
        shift = shift - 1;
    }
    assert(be_bytes(left as nat, 0) + rest@.subrange(0, 16) =~= rest@);
    let mut i: usize = 0;
    while i < 16
        invariant
            i <= 16,
            bytes@ == rest@.take(i as int),
        decreases 16 - i,
    {
        bytes.push(rest[i]);
        i = i + 1;
        assert(bytes@ =~= rest@.take(i as int));
    }
    assert(rest@.take(16) =~= rest@);
    bytes
}

/// Encoded bytes are canonical and decode to the same bytes.
pub proof fn lemma_hex_roundtrip(bytes: Seq<u8>)
    ensures
        is_canonical(hex_text(bytes), 2 * bytes.len()),
        is_hex(hex_text(bytes)),
        hex_bytes(hex_text(bytes)) == bytes,
{
    assert(hex_bytes(hex_text(bytes)) =~= bytes);
}

/// A canonical text is what its bytes encode to.
pub proof fn lemma_canonical_roundtrip(text: Seq<char>, count: nat)
    requires
        is_canonical(text, 2 * count),
    ensures
        is_hex(text),
        hex_bytes(text).len() == count,
        hex_text(hex_bytes(text)) == text,
{
    assert forall|i: int| 0 <= i < text.len() implies hex_value(#[trigger] text[i]) is Some by {
        assert(is_canonical_char(text[i]));
    }
    assert forall|i: int| 0 <= i < text.len() implies hex_text(hex_bytes(text))[i] == text[i] by {
        let k = i / 2;
        assert(is_canonical_char(text[2 * k]));
        assert(is_canonical_char(text[2 * k + 1]));
    }
    assert(hex_text(hex_bytes(text)) =~= text);
}

/// Whether a text is exactly `digits` lowercase hexadecimal digits.
pub fn canonical_hex(text: &str, digits: usize) -> (canonical: bool)
    ensures
        canonical == is_canonical(text@, digits as nat),
{
    let chars = to_chars(text);
    if chars.len() != digits {
        return false;
    }
    let mut i: usize = 0;
    while i < chars.len()
        invariant
            chars@ == text@,
            i <= chars@.len(),
            forall|k: int| 0 <= k < i ==> is_canonical_char(#[trigger] text@[k]),
        decreases chars@.len() - i,
    {
        let ch = chars[i];
        if !(('0' <= ch && ch <= '9') || ('a' <= ch && ch <= 'f')) {
            assert(!is_canonical_char(text@[i as int]));
            return false;
        }
        i = i + 1;
    }
    true
}

/// A node's 128-bit identity. Identities are ordered as their big-endian bytes are.
#[derive(Clone, Copy, Debug, PartialEq, Eq, PartialOrd, Ord, Hash, Structural)]
pub struct NodeId {
    pub value: u128,
}

/// The number of hexadecimal characters in the short form of an identity.
pub const SHORT_ID_CHARS: usize = 8;

impl NodeId {
    /// The 32 lowercase hexadecimal digits of this identity.
    pub open spec fn hex(self) -> Seq<char> {
        hex_text(be_bytes(self.value as nat, 16))
    }

    /// Whether a text names an identity: 32 hexadecimal digits of either case.
    pub open spec fn accepts(text: Seq<char>) -> bool {
        is_hex(text) && text.len() == 32
    }

    /// Parses 32 hexadecimal digits of either case.
    pub fn from_hex(text: &str) -> (result: Result<NodeId>)
        ensures
            result is Ok <==> NodeId::accepts(text@),
            result matches Ok(node) ==> node.value == be_value(hex_bytes(text@)),
            result matches Err(error) ==> error.refuses("节点 ID 必须是 32 位十六进制字符"@),
    {
        match hex_decode(text) {
            Some(bytes) => {
                if bytes.len() == 16 {
                    Ok(NodeId { value: u128_from_bytes(&bytes) })
                } else {
                    Err(failure("节点 ID 必须是 32 位十六进制字符"))
                }
            },
            None => Err(failure("节点 ID 必须是 32 位十六进制字符")),
        }
    }

    /// The 32 lowercase hexadecimal digits of this identity.
    pub fn to_hex(&self) -> (text: String)
        ensures
            text@ == self.hex(),
    {
        let bytes = u128_to_bytes(self.value);
        hex_encode(&bytes)
    }

    /// The first digits of the hexadecimal form, for messages.
    pub fn short(&self) -> (text: String)
        ensures
            text@ == self.hex().take(SHORT_ID_CHARS as int),
    {
        let full = self.to_hex();
        proof {
            lemma_pow256_of_sixteen();
            lemma_value_of_bytes(self.value as nat, 16);
        }
        let chars = to_chars(&full);
        from_chars(&chars, 0, SHORT_ID_CHARS)
    }
}

/// The hexadecimal form of an identity is canonical and names that identity alone.
pub proof fn node_hex_names_the_node(node: NodeId)
    ensures
        is_canonical(node.hex(), 32),
        NodeId::accepts(node.hex()),
        be_value(hex_bytes(node.hex())) == node.value,
{
    lemma_pow256_of_sixteen();
    lemma_value_of_bytes(node.value as nat, 16);
    lemma_hex_roundtrip(be_bytes(node.value as nat, 16));
}

/// Two identities with the same hexadecimal form are the same.
pub proof fn node_hex_is_injective(left: NodeId, right: NodeId)
    requires
        left.hex() == right.hex(),
    ensures
        left == right,
{
    node_hex_names_the_node(left);
    node_hex_names_the_node(right);
}

} // verus!

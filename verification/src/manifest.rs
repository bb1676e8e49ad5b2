//! Content manifests: chunk digests, their root, and which chunks are present.

use vstd::prelude::*;
use vstd::utf8::encode_utf8;

use crate::error::{decided, failure, Result};
use crate::identity::{be_bytes, be_value, hex_encode, hex_text, u128_from_bytes, u128_to_bytes};

verus! {

/// The smallest accepted chunk, in bytes.
pub const MIN_CHUNK_SIZE: u32 = 16384;

/// The largest accepted chunk, in bytes.
pub const MAX_CHUNK_SIZE: u32 = 16777216;

/// The chunk size used for selected files.
pub const DEFAULT_CHUNK_SIZE: u32 = 1048576;

/// The 32 bytes that `blake3::hash` gives for some data.
pub uninterp spec fn blake3_digest(data: Seq<u8>) -> Seq<u8>;

/// `blake3::hash` maps data to 32 bytes; the same data always give the same bytes.
#[verifier::external_body]
fn blake3_hash(data: &[u8]) -> (digest: Vec<u8>)
    ensures
        digest@ == blake3_digest(data@),
        digest@.len() == 32,
{
    blake3::hash(data).as_bytes().to_vec()
}

/// A 256-bit digest, kept as its two big-endian halves.
#[derive(Clone, Copy, Debug, PartialEq, Eq, Hash, Structural)]
pub struct ChunkHash {
    pub high: u128,
    pub low: u128,
}

impl ChunkHash {
    /// The 32 bytes of this digest.
    pub open spec fn bytes(self) -> Seq<u8> {
        be_bytes(self.high as nat, 16) + be_bytes(self.low as nat, 16)
    }

    /// The digest made of 32 bytes.
    pub open spec fn of_bytes(bytes: Seq<u8>) -> ChunkHash {
        ChunkHash {
            high: be_value(bytes.subrange(0, 16)) as u128,
            low: be_value(bytes.subrange(16, 32)) as u128,
        }
    }

    /// The digest of some data.
    pub open spec fn digest(data: Seq<u8>) -> ChunkHash {
        ChunkHash::of_bytes(blake3_digest(data))
    }

    /// The digest made of 32 bytes.
    pub fn from_bytes(bytes: &Vec<u8>) -> (hash: ChunkHash)
        requires
            bytes@.len() == 32,
        ensures
            hash == ChunkHash::of_bytes(bytes@),
    {
        let mut front: Vec<u8> = Vec::new();
        let mut back: Vec<u8> = Vec::new();
        let mut i: usize = 0;
        while i < 16
            invariant
                i <= 16,
                bytes@.len() == 32,
                front@ == bytes@.subrange(0, i as int),
                back@ == bytes@.subrange(16, 16 + i),
            decreases 16 - i,
        {
            front.push(bytes[i]);
            back.push(bytes[16 + i]);
            i = i + 1;
            assert(front@ =~= bytes@.subrange(0, i as int));
            assert(back@ =~= bytes@.subrange(16, 16 + i));
        }
        ChunkHash { high: u128_from_bytes(&front), low: u128_from_bytes(&back) }
    }

    /// The digest of some data.
    pub fn of(data: &[u8]) -> (hash: ChunkHash)
        ensures
            hash == ChunkHash::digest(data@),
    {
        let digest = blake3_hash(data);
        ChunkHash::from_bytes(&digest)
    }

    /// The 32 bytes of this digest.
    pub fn to_bytes(&self) -> (bytes: Vec<u8>)
        ensures
            bytes@ == self.bytes(),
    {
        let mut bytes = u128_to_bytes(self.high);
        let mut low = u128_to_bytes(self.low);
        bytes.append(&mut low);
        bytes
    }

    /// The 64 lowercase hexadecimal digits of this digest.
    pub fn to_hex(&self) -> (text: String)
        ensures
            text@ == hex_text(self.bytes()),
    {
        let bytes = self.to_bytes();
        hex_encode(&bytes)
    }
}

/// A digest has 32 bytes, and they make the digest.
pub proof fn digest_bytes_make_the_digest(hash: ChunkHash)
    ensures
        hash.bytes().len() == 32,
        ChunkHash::of_bytes(hash.bytes()) == hash,
{
    crate::identity::lemma_pow256_of_sixteen();
    crate::identity::lemma_value_of_bytes(hash.high as nat, 16);
    crate::identity::lemma_value_of_bytes(hash.low as nat, 16);
    assert(hash.bytes().subrange(0, 16) =~= be_bytes(hash.high as nat, 16));
    assert(hash.bytes().subrange(16, 32) =~= be_bytes(hash.low as nat, 16));
}

/// Two digests with the same bytes are the same.
pub proof fn digest_bytes_are_injective(left: ChunkHash, right: ChunkHash)
    requires
        left.bytes() == right.bytes(),
    ensures
        left == right,
{
    digest_bytes_make_the_digest(left);
    digest_bytes_make_the_digest(right);
}

/// Why a chunk size is refused, if it is.
pub open spec fn chunk_size_refusal(size: u32) -> Option<Seq<char>> {
    if MIN_CHUNK_SIZE <= size <= MAX_CHUNK_SIZE {
        None
    } else {
        Some("分片大小必须在 16384..=16777216 字节范围内"@)
    }
}

/// Chunks have between 16 KiB and 16 MiB.
pub fn validate_chunk_size(size: u32) -> (result: Result<()>)
    ensures
        decided(result, chunk_size_refusal(size)),
{
    if MIN_CHUNK_SIZE <= size && size <= MAX_CHUNK_SIZE {
        Ok(())
    } else {
        Err(failure("分片大小必须在 16384..=16777216 字节范围内"))
    }
}

/// How many pieces of the given size cover a length.
pub open spec fn pieces_needed(length: nat, size: nat) -> nat {
    if size == 0 {
        0
    } else {
        (length + size - 1) as nat / size
    }
}

/// How many pieces of the given size cover a length.
pub fn count_pieces(length: u64, size: u64) -> (count: u64)
    requires
        size > 0,
    ensures
        count == pieces_needed(length as nat, size as nat),
{
    let whole: u64 = length / size;
    let rest: u64 = length % size;
    proof {
        let l = length as int;
        let s = size as int;
        vstd::arithmetic::div_mod::lemma_fundamental_div_mod(l, s);
        if rest == 0 {
            assert(l + s - 1 == s * whole + (s - 1));
            vstd::arithmetic::div_mod::lemma_fundamental_div_mod_converse(
                l + s - 1,
                s,
                whole as int,
                s - 1,
            );
        } else {
            assert(s * (whole + 1) == s * whole + s) by (nonlinear_arith);
            assert(l + s - 1 == s * (whole + 1) + (rest - 1));
            vstd::arithmetic::div_mod::lemma_fundamental_div_mod_converse(
                l + s - 1,
                s,
                whole + 1,
                rest - 1,
            );
            assert(whole < u64::MAX) by (nonlinear_arith)
                requires
                    l == s * whole + rest,
                    rest > 0,
                    s > 0,
                    l <= u64::MAX,
            ;
        }
    }
    if rest == 0 {
        whole
    } else {
        whole + 1
    }
}

/// What a manifest says, as mathematical values.
pub struct ManifestView {
    pub file_name: Seq<char>,
    pub total_len: u64,
    pub chunk_size: u32,
    pub chunks: Seq<ChunkHash>,
    pub root_hash: ChunkHash,
}

/// A file's name, length and chunk digests, bound together by a root digest.
#[derive(Debug, PartialEq, Eq)]
pub struct FileManifest {
    pub file_name: String,
    pub total_len: u64,
    pub chunk_size: u32,
    pub chunks: Vec<ChunkHash>,
    pub root_hash: ChunkHash,
}

impl View for FileManifest {
    type V = ManifestView;

    open spec fn view(&self) -> ManifestView {
        ManifestView {
            file_name: self.file_name@,
            total_len: self.total_len,
            chunk_size: self.chunk_size,
            chunks: self.chunks@,
            root_hash: self.root_hash,
        }
    }
}

/// The bytes of some digests, one after the other.
pub open spec fn digests_bytes(chunks: Seq<ChunkHash>) -> Seq<u8>
    decreases chunks.len(),
{
    if chunks.len() == 0 {
        Seq::empty()
    } else {
        digests_bytes(chunks.drop_last()) + chunks.last().bytes()
    }
}

/// What the root digest covers: the name, the sizes and every chunk digest.
pub open spec fn root_input(
    file_name: Seq<char>,
    total_len: u64,
    chunk_size: u32,
    chunks: Seq<ChunkHash>,
) -> Seq<u8> {
    encode_utf8(file_name) + be_bytes(total_len as nat, 16) + be_bytes(chunk_size as nat, 16)
        + digests_bytes(chunks)
}

/// The root digest of a name, sizes and chunk digests.
pub open spec fn root_digest(
    file_name: Seq<char>,
    total_len: u64,
    chunk_size: u32,
    chunks: Seq<ChunkHash>,
) -> ChunkHash {
    ChunkHash::digest(root_input(file_name, total_len, chunk_size, chunks))
}

/// The root digest of a name, sizes and chunk digests.
pub fn root_hash_of(
    file_name: &str,
    total_len: u64,
    chunk_size: u32,
    chunks: &Vec<ChunkHash>,
) -> (root: ChunkHash)
    ensures
        root == root_digest(file_name@, total_len, chunk_size, chunks@),
{
    let mut bytes: Vec<u8> = file_name.as_bytes_vec();
    let mut length = u128_to_bytes(total_len as u128);
    bytes.append(&mut length);
    let mut size = u128_to_bytes(chunk_size as u128);
    bytes.append(&mut size);
    let ghost front = bytes@;
    let mut i: usize = 0;
    assert(chunks@.take(0) =~= Seq::<ChunkHash>::empty());
    while i < chunks.len()
        invariant
            i <= chunks@.len(),
            bytes@ == front + digests_bytes(chunks@.take(i as int)),
        decreases chunks@.len() - i,
    {
        assert(chunks@.take(i + 1).drop_last() =~= chunks@.take(i as int));
        let mut digest = chunks[i].to_bytes();
        bytes.append(&mut digest);
        i = i + 1;
        assert(bytes@ =~= front + digests_bytes(chunks@.take(i as int)));
    }
    assert(chunks@.take(chunks@.len() as int) =~= chunks@);
    ChunkHash::of(bytes.as_slice())
}

/// Where a chunk starts and how long it is.
pub open spec fn chunk_extent(total_len: nat, chunk_size: nat, index: nat) -> (nat, nat) {
    let offset = index * chunk_size;
    (
        offset,
        if total_len - offset < chunk_size {
            (total_len - offset) as nat
        } else {
            chunk_size
        },
    )
}

impl ManifestView {
    /// Why the manifest is refused, if it is.
    pub open spec fn refusal(self) -> Option<Seq<char>> {
        if chunk_size_refusal(self.chunk_size) is Some {
            chunk_size_refusal(self.chunk_size)
        } else if self.chunks.len() != pieces_needed(
            self.total_len as nat,
            self.chunk_size as nat,
        ) {
            Some("清单分片数量与文件长度不符"@)
        } else if self.root_hash != root_digest(
            self.file_name,
            self.total_len,
            self.chunk_size,
            self.chunks,
        ) {
            Some("清单根哈希不符"@)
        } else {
            None
        }
    }

    /// Whether the manifest is consistent with itself.
    pub open spec fn valid(self) -> bool {
        self.refusal() is None
    }

    /// Whether the chunk size is accepted and the chunk count follows from the sizes.
    pub open spec fn shaped(self) -> bool {
        chunk_size_refusal(self.chunk_size) is None && self.chunks.len() == pieces_needed(
            self.total_len as nat,
            self.chunk_size as nat,
        )
    }
}

impl FileManifest {
    /// A consistent manifest for these chunk digests.
    pub fn new(
        file_name: &str,
        total_len: u64,
        chunk_size: u32,
        chunks: Vec<ChunkHash>,
    ) -> (result: Result<FileManifest>)
        ensures
            decided(
                result,
                (ManifestView {
                    file_name: file_name@,
                    total_len,
                    chunk_size,
                    chunks: chunks@,
                    root_hash: root_digest(file_name@, total_len, chunk_size, chunks@),
                }).refusal(),
            ),
            result matches Ok(manifest) ==> manifest@ == (ManifestView {
                file_name: file_name@,
                total_len,
                chunk_size,
                chunks: chunks@,
                root_hash: root_digest(file_name@, total_len, chunk_size, chunks@),
            }),
    {
        let root_hash = root_hash_of(file_name, total_len, chunk_size, &chunks);
        let manifest = FileManifest {
            file_name: file_name.to_owned(),
            total_len,
            chunk_size,
            chunks,
            root_hash,
        };
        match manifest.validate() {
            Ok(()) => Ok(manifest),
            Err(error) => Err(error),
        }
    }

    /// Checks that sizes, chunk count and root digest agree.
    pub fn validate(&self) -> (result: Result<()>)
        ensures
            decided(result, self@.refusal()),
    {
        match validate_chunk_size(self.chunk_size) {
            Ok(()) => {},
            Err(error) => {
                return Err(error);
            },
        }
        if self.chunks.len() as u64 != count_pieces(self.total_len, self.chunk_size as u64) {
            return Err(failure("清单分片数量与文件长度不符"));
        }
        let root = root_hash_of(&self.file_name, self.total_len, self.chunk_size, &self.chunks);
        if self.root_hash != root {
            return Err(failure("清单根哈希不符"));
        }
        Ok(())
    }

    /// The number of chunks.
    pub fn chunk_count(&self) -> (count: usize)
        ensures
            count == self@.chunks.len(),
    {
        self.chunks.len()
    }

    /// Where a chunk starts and how long it is; nothing for an index out of range.
    pub fn chunk_range(&self, index: u32) -> (range: Option<(u64, u32)>)
        requires
            self@.shaped(),
        ensures
            range is Some <==> index < self@.chunks.len(),
            range matches Some((offset, length)) ==> (offset as nat, length as nat)
                == chunk_extent(self@.total_len as nat, self@.chunk_size as nat, index as nat)
                && offset + length <= self@.total_len && length > 0,
    {
        if index as u64 >= self.chunks.len() as u64 {
            return None;
        }
        proof {
            lemma_chunk_inside(self@, index as nat);
        }
        let offset: u64 = index as u64 * self.chunk_size as u64;
        let rest: u64 = self.total_len - offset;
        if rest < self.chunk_size as u64 {
            Some((offset, rest as u32))
        } else {
            Some((offset, self.chunk_size))
        }
    }

    /// Whether some bytes are the content of a chunk.
    pub fn verify_chunk(&self, index: u32, data: &[u8]) -> (valid: bool)
        ensures
            valid == (index < self@.chunks.len() && self@.chunks[index as int]
                == ChunkHash::digest(data@)),
    {
        if index as u64 >= self.chunks.len() as u64 {
            return false;
        }
        let hash = ChunkHash::of(data);
        self.chunks[index as usize] == hash
    }

    /// A manifest that says the same.
    pub fn duplicate(&self) -> (copy: FileManifest)
        ensures
            copy@ == self@,
    {
        let mut chunks: Vec<ChunkHash> = Vec::new();
        let mut i: usize = 0;
        while i < self.chunks.len()
            invariant
                i <= self.chunks@.len(),
                chunks@ == self.chunks@.take(i as int),
            decreases self.chunks@.len() - i,
        {
            chunks.push(self.chunks[i]);
            i = i + 1;
            assert(chunks@ =~= self.chunks@.take(i as int));
        }
        assert(chunks@ =~= self.chunks@);
        FileManifest {
            file_name: self.file_name.clone(),
            total_len: self.total_len,
            chunk_size: self.chunk_size,
            chunks,
            root_hash: self.root_hash,
        }
    }

    /// Whether two manifests say the same.
    pub fn same_as(&self, other: &FileManifest) -> (same: bool)
        ensures
            same == (self@ == other@),
    {
        if self.file_name != other.file_name || self.total_len != other.total_len
            || self.chunk_size != other.chunk_size || self.root_hash != other.root_hash
            || self.chunks.len() != other.chunks.len() {
            return false;
        }
        let mut i: usize = 0;
        while i < self.chunks.len()
            invariant
                i <= self.chunks@.len(),
                self.chunks@.len() == other.chunks@.len(),
                self.chunks@.take(i as int) == other.chunks@.take(i as int),
            decreases self.chunks@.len() - i,
        {
            if self.chunks[i] != other.chunks[i] {
                assert(self.chunks@[i as int] != other.chunks@[i as int]);
                return false;
            }
            i = i + 1;
            assert(self.chunks@.take(i as int) =~= self.chunks@.take(i - 1).push(
                self.chunks@[i - 1],
            ));
            assert(other.chunks@.take(i as int) =~= other.chunks@.take(i - 1).push(
                other.chunks@[i - 1],
            ));
        }
        assert(self.chunks@.take(i as int) =~= self.chunks@);
        assert(other.chunks@.take(i as int) =~= other.chunks@);
        true
    }
}

/// Every chunk starts inside the file.
proof fn lemma_chunk_inside(manifest: ManifestView, index: nat)
    requires
        manifest.shaped(),
        index < manifest.chunks.len(),
    ensures
        index * manifest.chunk_size < manifest.total_len,
{
    let size = manifest.chunk_size as int;
    let total = manifest.total_len as int;
    let i = index as int;
    let count = manifest.chunks.len() as int;
    assert(count == (total + size - 1) / size);
    vstd::arithmetic::div_mod::lemma_fundamental_div_mod(total + size - 1, size);
    assert(i * size <= (count - 1) * size) by (nonlinear_arith)
        requires
            i <= count - 1,
            size > 0,
    ;
    assert((count - 1) * size == count * size - size) by (nonlinear_arith);
    assert(size * count == count * size) by (nonlinear_arith);
}

/// How many bytes the first chunks of a file hold together.
pub open spec fn bytes_before(total_len: nat, chunk_size: nat, count: nat) -> nat
    decreases count,
{
    if count == 0 {
        0
    } else {
        bytes_before(total_len, chunk_size, (count - 1) as nat) + chunk_extent(
            total_len,
            chunk_size,
            (count - 1) as nat,
        ).1
    }
}

/// The chunks follow each other without gap and cover the file.
pub proof fn chunks_tile_the_file(manifest: ManifestView, count: nat)
    requires
        manifest.shaped(),
        count <= manifest.chunks.len(),
    ensures
        count < manifest.chunks.len() ==> bytes_before(
            manifest.total_len as nat,
            manifest.chunk_size as nat,
            count,
        ) == count * manifest.chunk_size,
        bytes_before(manifest.total_len as nat, manifest.chunk_size as nat, count)
            <= manifest.total_len,
        count == manifest.chunks.len() ==> bytes_before(
            manifest.total_len as nat,
            manifest.chunk_size as nat,
            count,
        ) == manifest.total_len,
    decreases count,
{
    let size = manifest.chunk_size as int;
    let total = manifest.total_len as int;
    let all = manifest.chunks.len() as int;
    assert(all == (total + size - 1) / size);
    vstd::arithmetic::div_mod::lemma_fundamental_div_mod(total + size - 1, size);
    if count == 0 {
        if all == 0 {
            assert(size * all == 0) by (nonlinear_arith)
                requires
                    all == 0,
            ;
            vstd::arithmetic::div_mod::lemma_mod_bound(total + size - 1, size);
            assert(total == 0);
        }
        assert(0 * manifest.chunk_size == 0);
    } else {
        let previous = (count - 1) as nat;
        chunks_tile_the_file(manifest, previous);
        lemma_chunk_inside(manifest, previous);
        let p = previous as int;
        assert((p + 1) * size == p * size + size) by (nonlinear_arith);
        if count < all {
            lemma_chunk_inside(manifest, count);
        } else {
            assert(size * all == (p + 1) * size) by (nonlinear_arith)
                requires
                    all == p + 1,
            ;
        }
    }
}

/// Bit `position` of a byte, counted from the low end.
pub open spec fn bit_of(byte: u8, position: int) -> bool {
    (byte >> position) & 1u8 == 1u8
}

/// Whether a byte sequence is the bitmap of these flags, low bits first, with
/// every unused bit clear.
pub open spec fn is_bitmap(bytes: Seq<u8>, flags: Seq<bool>) -> bool {
    &&& bytes.len() == pieces_needed(flags.len(), 8)
    &&& forall|i: int|
        #![trigger bit_of(bytes[i / 8], i % 8)]
        0 <= i < 8 * bytes.len() ==> bit_of(bytes[i / 8], i % 8) == (i < flags.len() && flags[i])
}

/// Which chunks of a file are present.
#[derive(Debug)]
pub struct ChunkBitmap {
    flags: Vec<bool>,
}

impl View for ChunkBitmap {
    type V = Seq<bool>;

    closed spec fn view(&self) -> Seq<bool> {
        self.flags@
    }
}

/// How many flags are set.
pub open spec fn count_true(flags: Seq<bool>) -> nat
    decreases flags.len(),
{
    if flags.len() == 0 {
        0
    } else {
        count_true(flags.drop_last()) + if flags.last() {
            1nat
        } else {
            0nat
        }
    }
}

/// The positions of the flags with this value, in order.
pub open spec fn positions(flags: Seq<bool>, value: bool) -> Seq<u32>
    decreases flags.len(),
{
    if flags.len() == 0 {
        Seq::empty()
    } else if flags.last() == value {
        positions(flags.drop_last(), value).push((flags.len() - 1) as u32)
    } else {
        positions(flags.drop_last(), value)
    }
}

impl ChunkBitmap {
    /// No chunk is present yet.
    pub fn new(count: usize) -> (bitmap: ChunkBitmap)
        ensures
            bitmap@ == Seq::new(count as nat, |i: int| false),
    {
        let mut flags: Vec<bool> = Vec::new();
        let mut i: usize = 0;
        while i < count
            invariant
                i <= count,
                flags@ == Seq::new(i as nat, |k: int| false),
            decreases count - i,
        {
            flags.push(false);
            i = i + 1;
            assert(flags@ =~= Seq::new(i as nat, |k: int| false));
        }
        ChunkBitmap { flags }
    }

    /// Reads a bitmap of `count` chunks, low bits first. The length must be exact
    /// and every unused bit clear.
    pub fn from_bytes(count: usize, bytes: &Vec<u8>) -> (result: Result<ChunkBitmap>)
        ensures
            result is Ok <==> exists|flags: Seq<bool>|
                flags.len() == count && #[trigger] is_bitmap(bytes@, flags),
            result matches Ok(bitmap) ==> bitmap@.len() == count && is_bitmap(bytes@, bitmap@),
            result matches Err(error) ==> error.refuses("恢复位图长度或未用位非法"@),
    {
        if bytes.len() as u64 != count_pieces(count as u64, 8) {
            return Err(failure("恢复位图长度或未用位非法"));
        }
        let mut flags: Vec<bool> = Vec::new();
        let mut at: usize = 0;
        while at < bytes.len()
            invariant
                at <= bytes@.len(),
                bytes@.len() == pieces_needed(count as nat, 8),
                flags@.len() == (if 8 * at < count {
                    8 * at
                } else {
                    count as int
                }),
                forall|i: int|
                    #![trigger bit_of(bytes@[i / 8], i % 8)]
                    0 <= i < 8 * at ==> bit_of(bytes@[i / 8], i % 8) == (i < flags@.len()
                        && flags@[i]),
            decreases bytes@.len() - at,
        {
            let byte = bytes[at];
            let mut low: u8 = 0;
            while low < 8
                invariant
                    low <= 8,
                    at < bytes@.len(),
                    byte == bytes@[at as int],
                    bytes@.len() == pieces_needed(count as nat, 8),
                    flags@.len() == (if 8 * at + low < count {
                        8 * at + low
                    } else {
                        count as int
                    }),
                    forall|i: int|
                        #![trigger bit_of(bytes@[i / 8], i % 8)]
                        0 <= i < 8 * at + low ==> bit_of(bytes@[i / 8], i % 8) == (i < flags@.len()
                            && flags@[i]),
                decreases 8 - low,
            {
                let set: bool = (byte >> low) & 1 == 1;
                let ghost here = 8 * at + low;
                assert(here / 8 == at && here % 8 == low);
                assert(bit_of(bytes@[here / 8], here % 8) == set);
                if flags.len() < count {
                    flags.push(set);
                } else if set {
                    proof {
                        assert forall|other: Seq<bool>|
                            other.len() == count implies !#[trigger] is_bitmap(bytes@, other) by {
                            assert(here < 8 * bytes@.len());
                        }
                    }
                    return Err(failure("恢复位图长度或未用位非法"));
                }
                low = low + 1;
            }
            at = at + 1;
        }
        let bitmap = ChunkBitmap { flags };
        assert(is_bitmap(bytes@, bitmap@));
        Ok(bitmap)
    }

    /// The bitmap in bytes, low bits first, unused bits clear.
    pub fn to_bytes(&self) -> (bytes: Vec<u8>)
        ensures
            is_bitmap(bytes@, self@),
    {
        let count: usize = self.flags.len();
        let total: usize = count_pieces(count as u64, 8) as usize;
        let mut bytes: Vec<u8> = Vec::new();
        let mut at: usize = 0;
        while at < total
            invariant
                at <= total,
                count == self.flags@.len(),
                total == pieces_needed(count as nat, 8),
                bytes@.len() == at,
                forall|i: int|
                    #![trigger bit_of(bytes@[i / 8], i % 8)]
                    0 <= i < 8 * at ==> bit_of(bytes@[i / 8], i % 8) == (i < self.flags@.len()
                        && self.flags@[i]),
            decreases total - at,
        {
            let ghost earlier = bytes@;
            let mut byte: u8 = 0;
            let mut low: u8 = 0;
            assert(forall|p: u8| p < 8 ==> #[trigger] (0u8 >> p) & 1u8 != 1u8) by (bit_vector);
            while low < 8
                invariant
                    low <= 8,
                    count == self.flags@.len(),
                    at < total,
                    total == pieces_needed(count as nat, 8),
                    forall|p: u8|
                        p < 8 ==> (#[trigger] (byte >> p) & 1u8 == 1u8) == (p < low && 8 * at + p
                            < count && self.flags@[8 * at + p]),
                decreases 8 - low,
            {
                let ghost previous = byte;
                if at * 8 + (low as usize) < count && self.flags[at * 8 + low as usize] {
                    byte = byte | (1u8 << low);
                    proof {
                        assert forall|p: u8| p < 8 implies (#[trigger] (byte >> p) & 1u8 == 1u8)
                            == (p <= low && 8 * at + p < count && self.flags@[8 * at + p]) by {
                            assert((((previous | (1u8 << low)) >> p) & 1u8 == 1u8) == (p == low || (
                            previous >> p) & 1u8 == 1u8)) by (bit_vector)
                                requires
                                    p < 8,
                                    low < 8,
                            ;
                        }
                    }
                }
                low = low + 1;
            }
            bytes.push(byte);
            at = at + 1;
            proof {
                assert forall|i: int|
                    #![trigger bit_of(bytes@[i / 8], i % 8)]
                    0 <= i < 8 * at implies bit_of(bytes@[i / 8], i % 8) == (i < self.flags@.len()
                    && self.flags@[i]) by {
                    if i / 8 < at - 1 {
                        assert(bytes@[i / 8] == earlier[i / 8]);
                        assert(bit_of(earlier[i / 8], i % 8) == (i < self.flags@.len()
                            && self.flags@[i]));
                    } else {
                        let p = (i % 8) as u8;
                        assert(p < 8 && i == 8 * (at - 1) + p);
                        assert((byte >> p) & 1u8 == (byte >> (i % 8)) & 1u8);
                    }
                }
            }
        }
        bytes
    }

    /// Whether a chunk is present.
    pub fn has(&self, index: u32) -> (present: bool)
        ensures
            present == (index < self@.len() && self@[index as int]),
    {
        (index as u64) < self.flags.len() as u64 && self.flags[index as usize]
    }

    /// Marks a chunk as present. Says whether it was new and in range.
    pub fn insert(&mut self, index: u32) -> (new: bool)
        ensures
            new == (index < old(self)@.len() && !old(self)@[index as int]),
            final(self)@ == if index < old(self)@.len() {
                old(self)@.update(index as int, true)
            } else {
                old(self)@
            },
    {
        if (index as u64) < self.flags.len() as u64 {
            let at: usize = index as usize;
            let new: bool = !self.flags[at];
            self.flags.set(at, true);
            new
        } else {
            false
        }
    }

    /// The chunks that are present (`true`) or missing (`false`), in order.
    pub fn list(&self, present: bool) -> (indices: Vec<u32>)
        requires
            self@.len() <= u32::MAX,
        ensures
            indices@ == positions(self@, present),
    {
        let mut indices: Vec<u32> = Vec::new();
        let mut i: usize = 0;
        assert(self.flags@.take(0) =~= Seq::<bool>::empty());
        while i < self.flags.len()
            invariant
                i <= self.flags@.len() <= u32::MAX,
                indices@ == positions(self.flags@.take(i as int), present),
            decreases self.flags@.len() - i,
        {
            assert(self.flags@.take(i + 1).drop_last() =~= self.flags@.take(i as int));
            if self.flags[i] == present {
                indices.push(i as u32);
            }
            i = i + 1;
        }
        assert(self.flags@.take(i as int) =~= self.flags@);
        indices
    }

    /// How many chunks are present.
    pub fn count_set(&self) -> (count: usize)
        ensures
            count == count_true(self@),
    {
        let mut count: usize = 0;
        let mut i: usize = 0;
        assert(self.flags@.take(0) =~= Seq::<bool>::empty());
        while i < self.flags.len()
            invariant
                i <= self.flags@.len(),
                count <= i,
                count == count_true(self.flags@.take(i as int)),
            decreases self.flags@.len() - i,
        {
            assert(self.flags@.take(i + 1).drop_last() =~= self.flags@.take(i as int));
            if self.flags[i] {
                count = count + 1;
            }
            i = i + 1;
        }
        assert(self.flags@.take(i as int) =~= self.flags@);
        count
    }
}

/// Two sets of flags of one length with the same bitmap are the same: reading
/// back a written bitmap gives the flags that were written.
pub proof fn bitmap_reads_back(bytes: Seq<u8>, written: Seq<bool>, read: Seq<bool>)
    requires
        is_bitmap(bytes, written),
        is_bitmap(bytes, read),
        written.len() == read.len(),
    ensures
        written == read,
{
    assert forall|i: int| 0 <= i < written.len() implies written[i] == read[i] by {
        assert(bit_of(bytes[i / 8], i % 8) == written[i]);
        assert(bit_of(bytes[i / 8], i % 8) == read[i]);
    }
    assert(written =~= read);
}

proof fn lemma_digests_length(chunks: Seq<ChunkHash>)
    ensures
        digests_bytes(chunks).len() == 32 * chunks.len(),
    decreases chunks.len(),
{
    if chunks.len() > 0 {
        lemma_digests_length(chunks.drop_last());
        digest_bytes_make_the_digest(chunks.last());
    }
}

proof fn lemma_digests_apart(left: Seq<ChunkHash>, right: Seq<ChunkHash>)
    requires
        digests_bytes(left) == digests_bytes(right),
    ensures
        left == right,
    decreases left.len(),
{
    lemma_digests_length(left);
    lemma_digests_length(right);
    assert(left.len() == right.len());
    if left.len() > 0 {
        let a = digests_bytes(left.drop_last());
        let b = digests_bytes(right.drop_last());
        lemma_digests_length(left.drop_last());
        lemma_digests_length(right.drop_last());
        assert(a =~= digests_bytes(left).take(a.len() as int));
        assert(b =~= digests_bytes(right).take(b.len() as int));
        assert(left.last().bytes() =~= digests_bytes(left).skip(a.len() as int));
        assert(right.last().bytes() =~= digests_bytes(right).skip(b.len() as int));
        digest_bytes_are_injective(left.last(), right.last());
        lemma_digests_apart(left.drop_last(), right.drop_last());
        assert(left =~= left.drop_last().push(left.last()));
        assert(right =~= right.drop_last().push(right.last()));
    } else {
        assert(left =~= right);
    }
}

proof fn lemma_root_tail(length: u64, size: u32, chunks: Seq<ChunkHash>)
    ensures
        be_bytes(length as nat, 16).len() == 16,
        be_bytes(size as nat, 16).len() == 16,
        be_value(be_bytes(length as nat, 16)) == length,
        be_value(be_bytes(size as nat, 16)) == size,
        digests_bytes(chunks).len() == 32 * chunks.len(),
{
    crate::identity::lemma_pow256_of_sixteen();
    crate::identity::lemma_value_of_bytes(length as nat, 16);
    crate::identity::lemma_value_of_bytes(size as nat, 16);
    lemma_digests_length(chunks);
}

/// The root covers the sizes and every chunk digest, in order: for one name, nothing of
/// these can change without changing what the root is made from.
pub proof fn roots_cover_the_content(
    name: Seq<char>,
    length: u64,
    size: u32,
    chunks: Seq<ChunkHash>,
    other_length: u64,
    other_size: u32,
    other_chunks: Seq<ChunkHash>,
)
    requires
        root_input(name, length, size, chunks) == root_input(
            name,
            other_length,
            other_size,
            other_chunks,
        ),
    ensures
        length == other_length,
        size == other_size,
        chunks == other_chunks,
{
    let left = root_input(name, length, size, chunks);
    let right = root_input(name, other_length, other_size, other_chunks);
    let start = encode_utf8(name).len() as int;
    lemma_root_tail(length, size, chunks);
    lemma_root_tail(other_length, other_size, other_chunks);
    assert(left.subrange(start, start + 16) =~= be_bytes(length as nat, 16));
    assert(right.subrange(start, start + 16) =~= be_bytes(other_length as nat, 16));
    assert(left.subrange(start + 16, start + 32) =~= be_bytes(size as nat, 16));
    assert(right.subrange(start + 16, start + 32) =~= be_bytes(other_size as nat, 16));
    assert(left.skip(start + 32) =~= digests_bytes(chunks));
    assert(right.skip(start + 32) =~= digests_bytes(other_chunks));
    lemma_digests_apart(chunks, other_chunks);
}

/// The root covers the name as well: among files with one number of chunks, nothing of
/// the name, the sizes and the digests can change without changing what the root is made
/// from.
pub proof fn roots_cover_the_name(
    name: Seq<char>,
    length: u64,
    size: u32,
    chunks: Seq<ChunkHash>,
    other_name: Seq<char>,
    other_length: u64,
    other_size: u32,
    other_chunks: Seq<ChunkHash>,
)
    requires
        chunks.len() == other_chunks.len(),
        root_input(name, length, size, chunks) == root_input(
            other_name,
            other_length,
            other_size,
            other_chunks,
        ),
    ensures
        name == other_name,
        length == other_length,
        size == other_size,
        chunks == other_chunks,
{
    let left = root_input(name, length, size, chunks);
    let right = root_input(other_name, other_length, other_size, other_chunks);
    lemma_root_tail(length, size, chunks);
    lemma_root_tail(other_length, other_size, other_chunks);
    let start = encode_utf8(name).len() as int;
    assert(left.len() == start + 32 + 32 * chunks.len());
    assert(right.len() == encode_utf8(other_name).len() + 32 + 32 * other_chunks.len());
    assert(encode_utf8(other_name).len() == start);
    assert(left.take(start) =~= encode_utf8(name));
    assert(right.take(start) =~= encode_utf8(other_name));
    vstd::utf8::encode_utf8_decode_utf8(name);
    vstd::utf8::encode_utf8_decode_utf8(other_name);
    roots_cover_the_content(
        name,
        length,
        size,
        chunks,
        other_length,
        other_size,
        other_chunks,
    );
}

/// Two sound manifests of one name and one root say the same, or the two different byte
/// strings that their roots cover have one digest.
pub proof fn roots_name_the_content(left: ManifestView, right: ManifestView)
    requires
        left.valid(),
        right.valid(),
        left.file_name == right.file_name,
        left.root_hash == right.root_hash,
    ensures
        ({
            let a = root_input(left.file_name, left.total_len, left.chunk_size, left.chunks);
            let b = root_input(right.file_name, right.total_len, right.chunk_size, right.chunks);
            left == right || (a != b && ChunkHash::digest(a) == ChunkHash::digest(b))
        }),
{
    let a = root_input(left.file_name, left.total_len, left.chunk_size, left.chunks);
    let b = root_input(right.file_name, right.total_len, right.chunk_size, right.chunks);
    if a == b {
        roots_cover_the_content(
            left.file_name,
            left.total_len,
            left.chunk_size,
            left.chunks,
            right.total_len,
            right.chunk_size,
            right.chunks,
        );
    }
}

/// A sound manifest is sound with no other root: its root is the digest of what the
/// root covers.
pub proof fn roots_are_determined(manifest: ManifestView, root: ChunkHash)
    requires
        manifest.valid(),
    ensures
        manifest.root_hash == ChunkHash::digest(
            root_input(
                manifest.file_name,
                manifest.total_len,
                manifest.chunk_size,
                manifest.chunks,
            ),
        ),
        (ManifestView { root_hash: root, ..manifest }).valid() <==> root == manifest.root_hash,
{
}

/// Pieces cover a length, and one piece fewer does not.
pub proof fn pieces_cover_the_length(length: nat, size: nat)
    requires
        size > 0,
    ensures
        length <= pieces_needed(length, size) * size,
        length > 0 ==> (pieces_needed(length, size) - 1) * size < length,
        length == 0 ==> pieces_needed(length, size) == 0,
{
    let count = pieces_needed(length, size) as int;
    let l = length as int;
    let s = size as int;
    vstd::arithmetic::div_mod::lemma_fundamental_div_mod(l + s - 1, s);
    let rest = (l + s - 1) % s;
    assert(0 <= rest < s);
    assert(s * count == count * s) by (nonlinear_arith);
    assert((count - 1) * s == count * s - s) by (nonlinear_arith);
    if length == 0 {
        vstd::arithmetic::div_mod::lemma_small_mod((s - 1) as nat, size);
        vstd::arithmetic::div_mod::lemma_basic_div(s - 1, s);
    }
}

/// The positions of a value are those at which it stands, in order and each once.
pub proof fn positions_are_listed(flags: Seq<bool>, value: bool, at: int)
    requires
        flags.len() <= u32::MAX,
        0 <= at < flags.len(),
    ensures
        positions(flags, value).contains(at as u32) <==> flags[at] == value,
        forall|j: int, k: int|
            0 <= j < k < positions(flags, value).len() ==> (#[trigger] positions(flags, value)[j])
                < (#[trigger] positions(flags, value)[k]),
        forall|k: int|
            0 <= k < positions(flags, value).len() ==> (#[trigger] positions(flags, value)[k])
                < flags.len(),
        positions(flags, true).len() == count_true(flags),
    decreases flags.len(),
{
    let front = flags.drop_last();
    let before = positions(front, value);
    let after = positions(flags, value);
    if front.len() > 0 {
        let inner = if at < front.len() {
            at
        } else {
            0
        };
        positions_are_listed(front, value, inner);
        if value {
        } else {
            positions_are_listed(front, true, inner);
        }
    } else {
        assert(positions(front, true).len() == 0);
        assert(count_true(front) == 0);
    }
    if at < front.len() {
        assert(front[at] == flags[at]);
        if before.contains(at as u32) {
            let k = choose|k: int| 0 <= k < before.len() && before[k] == at as u32;
            assert(after[k] == at as u32);
        }
        if after.contains(at as u32) {
            let k = choose|k: int| 0 <= k < after.len() && after[k] == at as u32;
            if k < before.len() {
                assert(before[k] == at as u32);
            }
        }
    } else {
        if flags.last() == value {
            assert(after[before.len() as int] == at as u32);
        } else if after.contains(at as u32) {
            let k = choose|k: int| 0 <= k < after.len() && after[k] == at as u32;
            assert(before[k] < front.len());
        }
    }
}

} // verus!

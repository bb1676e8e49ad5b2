//! Cutting content into chunks and describing it by a manifest.

use vstd::prelude::*;

use crate::error::{decided, Result};
use crate::manifest::{
    chunk_extent, chunk_size_refusal, pieces_needed, root_digest, validate_chunk_size, ChunkHash,
    FileManifest, ManifestView,
};

verus! {

/// One chunk of some content.
pub open spec fn content_chunk(content: Seq<u8>, chunk_size: nat, index: nat) -> Seq<u8> {
    let (offset, length) = chunk_extent(content.len(), chunk_size, index);
    content.subrange(offset as int, (offset + length) as int)
}

/// The digests of the first chunks of some content.
pub open spec fn first_digests(content: Seq<u8>, chunk_size: nat, count: nat) -> Seq<ChunkHash> {
    Seq::new(count, |i: int| ChunkHash::digest(content_chunk(content, chunk_size, i as nat)))
}

/// The manifest of some content.
pub open spec fn manifest_of(
    file_name: Seq<char>,
    chunk_size: u32,
    content: Seq<u8>,
) -> ManifestView {
    let chunks = first_digests(
        content,
        chunk_size as nat,
        pieces_needed(content.len(), chunk_size as nat),
    );
    ManifestView {
        file_name,
        total_len: content.len() as u64,
        chunk_size,
        chunks,
        root_hash: root_digest(file_name, content.len() as u64, chunk_size, chunks),
    }
}

proof fn lemma_pieces(whole: nat, rest: nat, size: nat)
    requires
        size > 0,
        rest <= size,
    ensures
        rest == 0 ==> pieces_needed(whole * size, size) == whole,
        rest > 0 ==> pieces_needed(whole * size + rest, size) == whole + 1,
{
    if rest == 0 {
        assert(whole * size + size - 1 == whole * size + (size - 1));
        vstd::arithmetic::div_mod::lemma_fundamental_div_mod_converse(
            whole * size + size - 1,
            size as int,
            whole as int,
            size - 1,
        );
    } else {
        assert(whole * size + rest + size - 1 == (whole + 1) * size + (rest - 1))
            by (nonlinear_arith);
        vstd::arithmetic::div_mod::lemma_fundamental_div_mod_converse(
            whole * size + rest + size - 1,
            size as int,
            (whole + 1) as int,
            rest - 1,
        );
    }
}

/// A manifest in the making: chunks are added in order, and only the last one may be
/// shorter than the others.
#[derive(Debug)]
pub struct ManifestBuilder {
    file_name: String,
    chunk_size: u32,
    total_len: u64,
    chunks: Vec<ChunkHash>,
    complete: bool,
}

impl ManifestBuilder {
    /// The lengths fit the chunks that were added.
    pub closed spec fn valid(self) -> bool {
        &&& chunk_size_refusal(self.chunk_size) is None
        &&& !self.complete ==> self.total_len == self.chunks@.len() * self.chunk_size
        &&& self.complete ==> self.chunks@.len() > 0 && (self.chunks@.len() - 1) * self.chunk_size
            < self.total_len < self.chunks@.len() * self.chunk_size
    }

    /// The name and chunk size of the manifest.
    pub closed spec fn describes(self, file_name: Seq<char>, chunk_size: u32) -> bool {
        self.file_name@ == file_name && self.chunk_size == chunk_size
    }

    /// Whether exactly this content was added.
    pub closed spec fn holds(self, content: Seq<u8>) -> bool {
        &&& content.len() == self.total_len
        &&& self.chunks@ == first_digests(
            content,
            self.chunk_size as nat,
            self.chunks@.len(),
        )
    }

    /// Whether a short chunk ended the content.
    pub closed spec fn ended(self) -> bool {
        self.complete
    }

    /// How many bytes were added.
    pub closed spec fn length(self) -> nat {
        self.total_len as nat
    }

    /// The size of full chunks.
    pub closed spec fn size(self) -> nat {
        self.chunk_size as nat
    }

    /// Starts a manifest without content.
    pub fn new(file_name: &str, chunk_size: u32) -> (result: Result<ManifestBuilder>)
        ensures
            decided(result, chunk_size_refusal(chunk_size)),
            result matches Ok(builder) ==> builder.valid() && builder.describes(
                file_name@,
                chunk_size,
            ) && builder.holds(Seq::empty()) && !builder.ended() && builder.length() == 0
                && builder.size() == chunk_size,
    {
        validate_chunk_size(chunk_size)?;
        let builder = ManifestBuilder {
            file_name: file_name.to_owned(),
            chunk_size,
            total_len: 0,
            chunks: Vec::new(),
            complete: false,
        };
        assert(builder.chunks@ =~= first_digests(Seq::empty(), chunk_size as nat, 0));
        Ok(builder)
    }

    /// Adds the next chunk. A chunk that is not full has to be the last one.
    pub fn add_chunk(&mut self, data: &[u8])
        requires
            old(self).valid(),
            !old(self).ended(),
            0 < data@.len() <= old(self).size(),
            old(self).length() + data@.len() <= u64::MAX,
        ensures
            final(self).valid(),
            final(self).ended() == (data@.len() < old(self).size()),
            final(self).length() == old(self).length() + data@.len(),
            final(self).size() == old(self).size(),
            forall|name: Seq<char>, size: u32| #[trigger]
                old(self).describes(name, size) ==> final(self).describes(name, size),
            forall|content: Seq<u8>| #[trigger]
                old(self).holds(content) ==> final(self).holds(content + data@),
    {
        let ghost before = *self;
        let ghost count = self.chunks@.len();
        let ghost size = self.chunk_size as nat;
        self.chunks.push(ChunkHash::of(data));
        self.total_len = self.total_len + data.len() as u64;
        self.complete = data.len() < self.chunk_size as usize;
        proof {
            assert((count + 1) * size == count * size + size) by (nonlinear_arith);
            assert forall|content: Seq<u8>| #[trigger] before.holds(content) implies self.holds(
                content + data@,
            ) by {
                let longer = content + data@;
                assert forall|i: int| 0 <= i < count + 1 implies #[trigger] self.chunks@[i]
                    == ChunkHash::digest(content_chunk(longer, size, i as nat)) by {
                    let offset = i * size;
                    if i == count {
                        assert(content_chunk(longer, size, i as nat) =~= data@);
                    } else {
                        assert((i + 1) * size == i * size + size) by (nonlinear_arith);
                        assert((i + 1) * size <= count * size) by (nonlinear_arith)
                            requires
                                0 <= i < count,
                        ;
                        assert(0 <= offset) by (nonlinear_arith)
                            requires
                                0 <= i,
                                offset == i * size,
                        ;
                        assert(content_chunk(longer, size, i as nat) =~= content_chunk(
                            content,
                            size,
                            i as nat,
                        ));
                        assert(before.chunks@[i] == first_digests(content, size, count)[i]);
                    }
                }
                assert(self.chunks@ =~= first_digests(longer, size, count + 1));
            }
        }
    }

    /// The manifest of everything that was added.
    pub fn finish(self) -> (result: Result<FileManifest>)
        requires
            self.valid(),
        ensures
            forall|name: Seq<char>, size: u32, content: Seq<u8>|
                #![trigger self.describes(name, size), self.holds(content)]
                self.describes(name, size) && self.holds(content) ==> (result matches Ok(manifest)
                    && manifest@ == manifest_of(name, size, content)),
    {
        proof {
            let count = self.chunks@.len();
            let size = self.chunk_size as nat;
            if self.complete {
                let rest = (self.total_len - (count - 1) * size) as nat;
                assert(count * size == (count - 1) * size + size) by (nonlinear_arith);
                lemma_pieces((count - 1) as nat, rest, size);
            } else {
                lemma_pieces(count, 0, size);
            }
            assert(self.chunks@.len() == pieces_needed(self.total_len as nat, size));
            assert forall|name: Seq<char>, size: u32, content: Seq<u8>|
                #![trigger self.describes(name, size), self.holds(content)]
                self.describes(name, size) && self.holds(content) implies manifest_of(
                name,
                size,
                content,
            ).chunks == self.chunks@ by {}
        }
        FileManifest::new(&self.file_name, self.total_len, self.chunk_size, self.chunks)
    }
}

/// The manifest of some bytes.
pub fn manifest_from_bytes(
    file_name: &str,
    chunk_size: u32,
    content: &Vec<u8>,
) -> (result: Result<FileManifest>)
    ensures
        decided(result, chunk_size_refusal(chunk_size)),
        result matches Ok(manifest) ==> manifest@ == manifest_of(file_name@, chunk_size, content@),
{
    let mut builder = ManifestBuilder::new(file_name, chunk_size)?;
    let mut at: usize = 0;
    let size: usize = chunk_size as usize;
    assert(content@.take(0) =~= Seq::<u8>::empty());
    while at < content.len()
        invariant
            at <= content@.len(),
            size == chunk_size,
            size > 0,
            builder.valid(),
            builder.describes(file_name@, chunk_size),
            builder.holds(content@.take(at as int)),
            builder.length() == at,
            builder.size() == chunk_size,
            at < content@.len() ==> !builder.ended(),
        decreases content@.len() - at,
    {
        let end: usize = if content.len() - at > size {
            at + size
        } else {
            content.len()
        };
        let chunk = vstd::slice::slice_subrange(content.as_slice(), at, end);
        builder.add_chunk(chunk);
        assert(content@.take(at as int) + chunk@ =~= content@.take(end as int));
        at = end;
    }
    assert(content@.take(at as int) =~= content@);
    builder.finish()
}

/// Every chunk of some content has the digest that the content's manifest gives for
/// it, and the manifest is consistent.
pub proof fn manifests_describe_their_content(
    file_name: Seq<char>,
    chunk_size: u32,
    content: Seq<u8>,
    index: nat,
)
    requires
        chunk_size_refusal(chunk_size) is None,
        content.len() <= u64::MAX,
        index < pieces_needed(content.len(), chunk_size as nat),
    ensures
        manifest_of(file_name, chunk_size, content).valid(),
        manifest_of(file_name, chunk_size, content).chunks[index as int] == ChunkHash::digest(
            content_chunk(content, chunk_size as nat, index),
        ),
{
}

/// A manifest names the file, its length and the size of its chunks as they are.
pub proof fn manifests_name_their_file(file_name: Seq<char>, chunk_size: u32, content: Seq<u8>)
    requires
        content.len() <= u64::MAX,
    ensures
        manifest_of(file_name, chunk_size, content).file_name == file_name,
        manifest_of(file_name, chunk_size, content).total_len == content.len(),
        manifest_of(file_name, chunk_size, content).chunk_size == chunk_size,
{
}

/// Contents of one length whose chunks agree are the same: every byte stands in a chunk.
pub proof fn chunks_make_the_content(left: Seq<u8>, right: Seq<u8>, chunk_size: nat)
    requires
        chunk_size > 0,
        left.len() == right.len(),
        forall|index: nat|
            index < pieces_needed(left.len(), chunk_size) ==> #[trigger] content_chunk(
                left,
                chunk_size,
                index,
            ) == content_chunk(right, chunk_size, index),
    ensures
        left == right,
{
    let size = chunk_size as int;
    let total = left.len() as int;
    assert forall|p: int| 0 <= p < total implies left[p] == right[p] by {
        let index = p / size;
        vstd::arithmetic::div_mod::lemma_fundamental_div_mod(p, size);
        vstd::arithmetic::div_mod::lemma_div_pos_is_pos(p, size);
        let offset = index * size;
        assert(offset == size * index) by (nonlinear_arith)
            requires
                offset == index * size,
        ;
        assert(offset <= p < offset + size);
        crate::manifest::pieces_cover_the_length(left.len(), chunk_size);
        let count = pieces_needed(left.len(), chunk_size) as int;
        assert(index < count) by (nonlinear_arith)
            requires
                index * size <= p,
                p < total,
                total <= count * size,
                size > 0,
        ;
        let a = content_chunk(left, chunk_size, index as nat);
        let b = content_chunk(right, chunk_size, index as nat);
        assert(a == b);
        assert(a[p - offset] == left[p]);
        assert(b[p - offset] == right[p]);
    }
    assert(left =~= right);
}

/// Different contents of one length have manifests with different chunk digests, or two
/// different chunks have one digest.
pub proof fn manifests_tell_contents_apart(
    file_name: Seq<char>,
    chunk_size: u32,
    left: Seq<u8>,
    right: Seq<u8>,
)
    requires
        chunk_size_refusal(chunk_size) is None,
        left.len() == right.len() <= u64::MAX,
        left != right,
    ensures
        manifest_of(file_name, chunk_size, left).chunks != manifest_of(
            file_name,
            chunk_size,
            right,
        ).chunks || exists|index: nat|
            {
                let a = #[trigger] content_chunk(left, chunk_size as nat, index);
                let b = content_chunk(right, chunk_size as nat, index);
                a != b && ChunkHash::digest(a) == ChunkHash::digest(b)
            },
{
    let size = chunk_size as nat;
    let count = pieces_needed(left.len(), size);
    if forall|index: nat|
        index < count ==> #[trigger] content_chunk(left, size, index) == content_chunk(
            right,
            size,
            index,
        ) {
        chunks_make_the_content(left, right, size);
    } else {
        let index = choose|index: nat|
            index < count && #[trigger] content_chunk(left, size, index) != content_chunk(
                right,
                size,
                index,
            );
        let a = manifest_of(file_name, chunk_size, left).chunks;
        let b = manifest_of(file_name, chunk_size, right).chunks;
        if a == b {
            assert(a[index as int] == ChunkHash::digest(content_chunk(left, size, index)));
            assert(b[index as int] == ChunkHash::digest(content_chunk(right, size, index)));
        }
    }
}

} // verus!

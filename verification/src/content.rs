//! Hashing the content of one file.

use crate::sha256::{absorbed, sha256, sha256_finalize, sha256_new, sha256_update, Sha256State};
use vstd::prelude::*;

verus! {

/// An incremental hasher for the content of one file.
///
/// The content may arrive in chunks of any size: only the bytes and their
/// order decide the digest.
pub struct ContentHasher {
    state: Sha256State,
}

impl View for ContentHasher {
    type V = Seq<u8>;

    /// The bytes consumed so far.
    closed spec fn view(&self) -> Seq<u8> {
        absorbed(self.state)
    }
}

impl ContentHasher {
    /// A hasher that has consumed nothing yet.
    pub fn new() -> (hasher: ContentHasher)
        ensures
            hasher@ == Seq::<u8>::empty(),
    {
        ContentHasher { state: sha256_new() }
    }

    /// Consumes the next chunk of the content.
    pub fn update(&mut self, chunk: &[u8])
        ensures
            final(self)@ == old(self)@ + chunk@,
    {
        sha256_update(&mut self.state, chunk);
    }

    /// The digest of everything consumed.
    pub fn finalize(self) -> (digest: [u8; 32])
        ensures
            digest == sha256(self@),
    {
        sha256_finalize(self.state)
    }
}

/// The concatenation of a sequence of chunks.
pub open spec fn concat_chunks(chunks: Seq<Seq<u8>>) -> Seq<u8>
    decreases chunks.len(),
{
    if chunks.len() == 0 {
        Seq::empty()
    } else {
        concat_chunks(chunks.drop_last()) + chunks.last()
    }
}

/// Hashes content that is held in memory as one piece.
pub fn hash_content(content: &[u8]) -> (digest: [u8; 32])
    ensures
        digest == sha256(content@),
{
    let mut hasher = ContentHasher::new();
    hasher.update(content);
    hasher.finalize()
}

/// Hashes content that is held in memory as a sequence of chunks. However
/// the content is cut into chunks, the digest is that of the whole.
pub fn hash_chunks(chunks: &Vec<Vec<u8>>) -> (digest: [u8; 32])
    ensures
        digest == sha256(concat_chunks(chunks.deep_view())),
{
    let mut hasher = ContentHasher::new();
    let mut i: usize = 0;
    while i < chunks.len()
        invariant
            i <= chunks.len(),
            hasher@ == concat_chunks(chunks.deep_view().take(i as int)),
        decreases chunks.len() - i,
    {
        hasher.update(chunks[i].as_slice());
        proof {
            let next = chunks.deep_view().take(i + 1);
            assert(next.drop_last() =~= chunks.deep_view().take(i as int));
        }
        i += 1;
    }
    assert(chunks.deep_view().take(i as int) =~= chunks.deep_view());
    hasher.finalize()
}

} // verus!

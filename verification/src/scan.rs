//! Enumerating a tree: what each directory entry means for the digest.
//!
//! The caller walks the directory and reports what it meets, one event for
//! each entry; the scan decides what enters the digest and what ends the
//! computation.
//!
//! - Only regular files enter the digest. Directories, symbolic links and
//!   everything else are left out.
//! - A directory entry that cannot be read is passed over, so that one bad
//!   entry does not keep a tree from having a digest. What lies behind such
//!   an entry is not covered by the digest.
//! - A regular file whose metadata or content cannot be read ends the
//!   computation with an error: a digest never stands for a file that was
//!   not read to its end.

use crate::aggregate::{compute_folder_digest, folder_digest, FolderDigest};
use crate::entry::{EntryView, FileEntry};
use crate::error::DigestError;
use vstd::prelude::*;

verus! {

/// A request for the digest of a tree: the directory at which the tree is
/// rooted, and the salt. The salt may be empty.
#[derive(Clone, Debug, PartialEq, Eq)]
pub struct SaltedDigestRequest {
    pub root_path: String,
    pub salt: Vec<u8>,
}

/// What a walk of a directory tree meets.
#[derive(Clone, Debug, PartialEq, Eq)]
pub enum WalkEvent {
    /// A directory entry that could not be read.
    Unreadable,
    /// A directory, a symbolic link, or anything else that is not a regular
    /// file.
    NotRegular,
    /// A regular file: its path relative to the root and the digest of its
    /// content.
    Regular { path: Vec<u8>, content_hash: [u8; 32] },
    /// A regular file whose metadata or content could not be read.
    Failed { file: String },
}

/// The entries after an event, or the error that ends the scan.
pub open spec fn scan_step(entries: Seq<EntryView>, event: WalkEvent) -> Result<
    Seq<EntryView>,
    DigestError,
> {
    match event {
        WalkEvent::Unreadable => Ok(entries),
        WalkEvent::NotRegular => Ok(entries),
        WalkEvent::Regular { path, content_hash } => Ok(
            entries.push(EntryView { path: path@, content_hash }),
        ),
        WalkEvent::Failed { file } => Err(DigestError::UnreadableFile { path: file }),
    }
}

/// A walk in progress: the salt of the request, and the files met so far.
pub struct TreeScan {
    salt: Vec<u8>,
    entries: Vec<FileEntry>,
}

impl View for TreeScan {
    type V = Seq<EntryView>;

    /// The entries collected so far, in the order in which they were met.
    closed spec fn view(&self) -> Seq<EntryView> {
        self.entries.deep_view()
    }
}

impl TreeScan {
    /// The salt of the request that started the scan.
    pub closed spec fn salt(&self) -> Seq<u8> {
        self.salt@
    }

    /// Starts the scan that a request asks for. A root that is not an
    /// existing directory is reported here, before anything is walked.
    pub fn begin(request: SaltedDigestRequest, root_is_directory: bool) -> (result: Result<
        TreeScan,
        DigestError,
    >)
        ensures
            match result {
                Ok(scan) => root_is_directory && scan@ == Seq::<EntryView>::empty() && scan.salt()
                    == request.salt@,
                Err(error) => !root_is_directory && error == (DigestError::DirectoryNotFound {
                    root: request.root_path,
                }),
            },
    {
        if root_is_directory {
            let scan = TreeScan { salt: request.salt, entries: Vec::new() };
            Ok(scan)
        } else {
            Err(DigestError::DirectoryNotFound { root: request.root_path })
        }
    }

    /// Takes note of the next event of the walk. After an error the scan is
    /// as it was before.
    pub fn record(&mut self, event: WalkEvent) -> (result: Result<(), DigestError>)
        ensures
            final(self).salt() == old(self).salt(),
            match result {
                Ok(()) => scan_step(old(self)@, event) == Ok::<Seq<EntryView>, DigestError>(
                    final(self)@,
                ),
                Err(error) => scan_step(old(self)@, event) == Err::<Seq<EntryView>, DigestError>(
                    error,
                ) && final(self)@ == old(self)@,
            },
    {
        match event {
            WalkEvent::Unreadable => Ok(()),
            WalkEvent::NotRegular => Ok(()),
            WalkEvent::Regular { path, content_hash } => {
                self.entries.push(FileEntry { path, content_hash });
                assert(self@ =~= old(self)@.push(EntryView { path: path@, content_hash }));
                Ok(())
            },
            WalkEvent::Failed { file } => Err(DigestError::UnreadableFile { path: file }),
        }
    }

    /// The number of files collected so far.
    pub fn file_count(&self) -> (count: usize)
        ensures
            count == self@.len(),
    {
        self.entries.len()
    }

    /// Ends the walk: the digest of the files collected, under the salt of
    /// the request.
    pub fn finish(self) -> (digest: FolderDigest)
        ensures
            digest.bytes == folder_digest(self.salt(), self@),
    {
        compute_folder_digest(self.entries, self.salt.as_slice())
    }
}

} // verus!

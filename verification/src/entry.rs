//! One traversal entry and the size it contributes to its root.

use crate::tracker::InodeFilter;
use vstd::prelude::*;

verus! {

/// The policies of a run. They do not change while it lasts.
#[derive(Debug, Clone, Copy, PartialEq, Eq, Structural)]
pub struct WalkOptions {
    /// Count the logical length of a file rather than what it occupies on disk.
    pub apparent_size: bool,
    /// Count storage once for each directory entry that refers to it.
    pub count_hard_links: bool,
    /// Count entries that live on another filesystem than their root.
    pub cross_filesystems: bool,
}

/// What the walker found out about an entry.
#[derive(Debug, Clone, Copy, PartialEq, Eq, Structural)]
pub struct EntryMetadata {
    /// Whether the entry is a directory.
    pub is_dir: bool,
    /// The identity key by which hard links to the same storage are told.
    pub inode: u64,
    /// The filesystem the entry lives on.
    pub device: u64,
    /// The logical length in bytes.
    pub len: u64,
    /// What the entry occupies on disk, as the filesystem answered when it
    /// was asked; `None` where it could not say. It is read only for an entry
    /// that counts, and only while sizes on disk are asked for.
    pub size_on_disk: Option<u64>,
}

/// One item of a traversal.
#[derive(Debug, Clone, Copy, PartialEq, Eq, Structural)]
pub enum Entry {
    /// The walker failed to enumerate the entry.
    WalkError,
    /// The entry was enumerated, but its metadata could not be read.
    MetadataError,
    /// The entry was enumerated without metadata.
    NoMetadata,
    /// The entry with its metadata.
    Metadata(EntryMetadata),
}

/// What an entry adds to its root.
#[derive(Debug, Clone, Copy, PartialEq, Eq, Structural)]
pub struct Contribution {
    /// The bytes added to the root's total.
    pub bytes: u64,
    /// Whether the entry counts as one error of its root.
    pub error: bool,
}

/// Whether the identity tracker is consulted for an entry: only for what is
/// not a directory, and only while hard links are not counted one by one.
pub open spec fn consults_tracker(options: WalkOptions, meta: EntryMetadata) -> bool {
    !meta.is_dir && !options.count_hard_links
}

/// The keys met once an entry with metadata was classified.
pub open spec fn seen_after(options: WalkOptions, seen: Set<u64>, meta: EntryMetadata) -> Set<u64> {
    if consults_tracker(options, meta) {
        seen.insert(meta.inode)
    } else {
        seen
    }
}

/// Whether an entry counts toward its root's size.
pub open spec fn eligible(
    options: WalkOptions,
    seen: Set<u64>,
    root_device: u64,
    meta: EntryMetadata,
) -> bool {
    &&& !meta.is_dir
    &&& (options.count_hard_links || !seen.contains(meta.inode))
    &&& (options.cross_filesystems || meta.device == root_device)
}

/// What an entry with metadata contributes to its root: nothing where it
/// does not count; else its logical length, or what it occupies on disk,
/// and where the filesystem could not say that, nothing and one error.
pub open spec fn contribution(
    options: WalkOptions,
    seen: Set<u64>,
    root_device: u64,
    meta: EntryMetadata,
) -> Contribution {
    if !eligible(options, seen, root_device, meta) {
        Contribution { bytes: 0, error: false }
    } else if options.apparent_size {
        Contribution { bytes: meta.len, error: false }
    } else {
        match meta.size_on_disk {
            Some(size) => Contribution { bytes: size, error: false },
            None => Contribution { bytes: 0, error: true },
        }
    }
}

/// Resolves what an entry with metadata contributes to its root, and records
/// its identity key where the tracker is consulted.
pub fn file_size(
    options: &WalkOptions,
    inodes: &mut InodeFilter,
    root_device: u64,
    meta: &EntryMetadata,
) -> (c: Contribution)
    ensures
        c == contribution(*options, old(inodes)@, root_device, *meta),
        final(inodes)@ == seen_after(*options, old(inodes)@, *meta),
{
    if !meta.is_dir && (options.count_hard_links || inodes.add(meta.inode)) && (
    options.cross_filesystems || meta.device == root_device) {
        if options.apparent_size {
            Contribution { bytes: meta.len, error: false }
        } else {
            match meta.size_on_disk {
                Some(size) => Contribution { bytes: size, error: false },
                None => Contribution { bytes: 0, error: true },
            }
        }
    } else {
        Contribution { bytes: 0, error: false }
    }
}

/// A directory contributes no bytes and no error, whatever the policies, the
/// tracker and the filesystem say, and the tracker is not consulted for it.
pub proof fn lemma_directory_contributes_nothing(
    options: WalkOptions,
    seen: Set<u64>,
    root_device: u64,
    meta: EntryMetadata,
)
    requires
        meta.is_dir,
    ensures
        contribution(options, seen, root_device, meta) == (Contribution { bytes: 0, error: false }),
        seen_after(options, seen, meta) == seen,
{
}

/// While hard links are not counted one by one, an entry whose identity key
/// the tracker has met contributes no bytes and no error.
pub proof fn lemma_met_key_contributes_nothing(
    options: WalkOptions,
    seen: Set<u64>,
    root_device: u64,
    meta: EntryMetadata,
)
    requires
        !options.count_hard_links,
        seen.contains(meta.inode),
    ensures
        contribution(options, seen, root_device, meta) == (Contribution { bytes: 0, error: false }),
{
}

/// What the filesystem says an entry occupies on disk is read only while
/// sizes on disk are asked for, and only for an entry that counts: for any
/// other entry the contribution is the same whatever it says.
pub proof fn lemma_size_on_disk_read_only_where_wanted(
    options: WalkOptions,
    seen: Set<u64>,
    root_device: u64,
    meta: EntryMetadata,
    on_disk: Option<u64>,
)
    requires
        options.apparent_size || !eligible(options, seen, root_device, meta),
    ensures
        contribution(options, seen, root_device, EntryMetadata { size_on_disk: on_disk, ..meta })
            == contribution(options, seen, root_device, meta),
        seen_after(options, seen, EntryMetadata { size_on_disk: on_disk, ..meta }) == seen_after(
            options,
            seen,
            meta,
        ),
{
}

/// While other filesystems are left out, an entry on another device than its
/// root contributes no bytes and no error.
pub proof fn lemma_other_device_contributes_nothing(
    options: WalkOptions,
    seen: Set<u64>,
    root_device: u64,
    meta: EntryMetadata,
)
    requires
        !options.cross_filesystems,
        meta.device != root_device,
    ensures
        contribution(options, seen, root_device, meta) == (Contribution { bytes: 0, error: false }),
{
}

/// Where the filesystem cannot say what an entry that counts occupies, the
/// entry contributes no bytes and one error.
pub proof fn lemma_failed_size_is_one_error(
    options: WalkOptions,
    seen: Set<u64>,
    root_device: u64,
    meta: EntryMetadata,
)
    requires
        eligible(options, seen, root_device, meta),
        !options.apparent_size,
        meta.size_on_disk is None,
    ensures
        contribution(options, seen, root_device, meta) == (Contribution { bytes: 0, error: true }),
{
}

} // verus!

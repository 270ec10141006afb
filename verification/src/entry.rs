//! The data model for one listed filesystem object.
//!
//! An [`Entry`] is built once from plain values handed in by the caller
//! (which owns all OS access), optionally annotated with a
//! version-control status, reordered by the sort engine, and then read by
//! the layout renderers.

use vstd::prelude::*;

verus! {

/// The kind of filesystem object an entry describes.
#[derive(PartialEq, Eq, Structural, Copy, Clone, Debug)]
pub enum EntryType {
    RegularFile,
    Directory,
    Symlink,
    BlockDevice,
    CharDevice,
    Fifo,
    Socket,
    Unknown,
}

/// One permission-bit set: owner/group/other read, write, execute, plus
/// the setuid, setgid and sticky bits.
#[derive(PartialEq, Eq, Structural, Copy, Clone, Debug)]
pub struct Permissions {
    pub user_read: bool,
    pub user_write: bool,
    pub user_execute: bool,
    pub group_read: bool,
    pub group_write: bool,
    pub group_execute: bool,
    pub other_read: bool,
    pub other_write: bool,
    pub other_execute: bool,
    pub setuid: bool,
    pub setgid: bool,
    pub sticky: bool,
}

/// Per-path status relative to a version-control working tree.
#[derive(PartialEq, Eq, Structural, Copy, Clone, Debug)]
pub enum VcsStatus {
    Unmodified,
    Modified,
    New,
    Deleted,
    Renamed,
    TypeChanged,
    Conflicted,
    Ignored,
}

/// The one-hop resolution of a symlink: the target's path and whether it
/// exists (a broken link is a state, not an error).
pub struct LinkTarget {
    pub target: String,
    pub exists: bool,
}

/// One filesystem object being listed.
///
/// `perms` is `None` exactly when metadata extraction failed for the
/// object (missing or permission denied); such an entry is rendered as a
/// placeholder row, never dropped.  `children` is populated only for
/// directories under recursive traversal; the tree is strictly
/// parent-owned.
pub struct Entry {
    pub name: String,
    pub entry_type: EntryType,
    pub size: u64,
    pub nlink: u64,
    /// Seconds since the epoch of the last modification (0 when unknown).
    pub modified: i64,
    /// Seconds since the epoch of the last access (0 when unknown).
    pub accessed: i64,
    /// Seconds since the epoch of creation; absent where the platform
    /// does not report it.
    pub created: Option<i64>,
    pub perms: Option<Permissions>,
    pub owner: String,
    pub group: String,
    pub vcs_status: Option<VcsStatus>,
    pub symlink_target: Option<LinkTarget>,
    pub depth: u64,
    pub children: Vec<Entry>,
}

impl Entry {
    /// Whether the entry is a directory.
    pub open spec fn is_dir(&self) -> bool {
        self.entry_type == EntryType::Directory
    }

    /// Whether metadata extraction failed for this entry.
    pub open spec fn is_denied(&self) -> bool {
        self.perms is None
    }

    /// A symlink whose one-hop target does not exist.
    pub open spec fn is_broken_link(&self) -> bool {
        self.entry_type == EntryType::Symlink && match self.symlink_target {
            Some(t) => !t.exists,
            None => true,
        }
    }

    /// Whether any execute bit is set.
    pub open spec fn is_executable(&self) -> bool {
        match self.perms {
            Some(p) => p.user_execute || p.group_execute || p.other_execute,
            None => false,
        }
    }

    /// Builds a bare entry from plain values; no status, no link target,
    /// no children.
    pub fn new(name: String, entry_type: EntryType, size: u64, nlink: u64, modified: i64,
        perms: Option<Permissions>, owner: String, group: String) -> (e: Entry)
        ensures
            e.name == name,
            e.entry_type == entry_type,
            e.size == size,
            e.nlink == nlink,
            e.modified == modified,
            e.accessed == 0,
            e.created is None,
            e.perms == perms,
            e.owner == owner,
            e.group == group,
            e.vcs_status is None,
            e.symlink_target is None,
            e.depth == 0,
            e.children@.len() == 0,
    {
        Entry {
            name,
            entry_type,
            size,
            nlink,
            modified,
            accessed: 0,
            created: None,
            perms,
            owner,
            group,
            vcs_status: None,
            symlink_target: None,
            depth: 0,
            children: Vec::new(),
        }
    }

    /// A placeholder for an object whose metadata could not be read:
    /// marked denied, with empty owner and group and zeroed numbers.
    pub fn denied(name: String) -> (e: Entry)
        ensures
            e.name == name,
            e.is_denied(),
            e.entry_type == EntryType::Unknown,
            e.size == 0,
            e.nlink == 0,
            e.vcs_status is None,
            e.children@.len() == 0,
    {
        Entry {
            name,
            entry_type: EntryType::Unknown,
            size: 0,
            nlink: 0,
            modified: 0,
            accessed: 0,
            created: None,
            perms: None,
            owner: String::new(),
            group: String::new(),
            vcs_status: None,
            symlink_target: None,
            depth: 0,
            children: Vec::new(),
        }
    }

    /// Attaches a version-control status; set once by the orchestrator,
    /// never by the extractor.
    pub fn set_vcs_status(&mut self, status: VcsStatus)
        ensures
            *final(self) == (Entry { vcs_status: Some(status), ..*old(self) }),
    {
        self.vcs_status = Some(status);
    }
}

} // verus!

use vstd::prelude::*;

use std::collections::HashSet;

use crate::model::node::{sorted_from, DiskNode, NodeType};
use crate::scanner::tree_build::{build_tree, built_from, models, totals_fit, EntryModel, RawEntry};
use crate::strings::{file_name_of, path_file_name, push_decimal, texts};
use vstd::string::StringExecFns;

verus! {

broadcast use vstd::std_specs::hash::group_hash_axioms;

/// The name the scanned tree's root gets: the last component of the scanned path, or
/// the whole path when it has none (such as `/`).
pub fn root_name(path: &str) -> (r: String)
    ensures
        r@ == match path_file_name(path@) {
            Some(n) => n,
            None => path@,
        },
{
    match file_name_of(path) {
        Some(name) => name,
        None => String::from_str(path),
    }
}

/// How many entries the scan could not read.
#[derive(Debug, Clone, Copy, PartialEq, Eq, Structural)]
pub struct ScanWarnings {
    pub skipped_entries: u64,
}

impl Default for ScanWarnings {
    fn default() -> (w: Self)
        ensures
            w.skipped_entries == 0,
    {
        ScanWarnings { skipped_entries: 0 }
    }
}

impl ScanWarnings {
    /// A notice for the user when entries were skipped.
    pub fn summary(&self) -> (r: Option<String>)
        ensures
            self.skipped_entries == 0 ==> r is None,
            self.skipped_entries > 0 ==> (r matches Some(s) && s@ == "Skipped "@
                + crate::strings::decimal(self.skipped_entries as nat) + " unreadable entries"@),
    {
        if self.skipped_entries == 0 {
            return None;
        }
        let mut s = String::from_str("Skipped ");
        push_decimal(&mut s, self.skipped_entries);
        s.append(" unreadable entries");
        Some(s)
    }
}

/// Messages sent from the scanner thread to the TUI.
pub enum ScanUpdate {
    Progress { files_found: u64, bytes_found: u64 },
    Complete { root: DiskNode, warnings: ScanWarnings },
    Error(String),
}

/// An entry as read from the filesystem, before hard links are accounted for: its path
/// as components below the scan root, its size (0 for directories), type,
/// modification time (nanoseconds relative to the Unix epoch) and, for files and
/// symlinks, the (device, inode) pair that identifies the data it shares with its hard
/// links.
#[derive(Debug)]
pub struct ProcessedEntry {
    pub components: Vec<String>,
    pub size: u64,
    pub node_type: NodeType,
    pub modified: Option<i128>,
    pub inode_key: Option<(u64, u64)>,
}

/// The number that stands for a (device, inode) pair; distinct pairs get distinct numbers.
pub open spec fn inode_number(dev: u64, ino: u64) -> u128 {
    (dev as int * 0x1_0000_0000_0000_0000 + ino as int) as u128
}

/// Distinct (device, inode) pairs stand for distinct numbers.
pub proof fn lemma_inode_number_injective(d1: u64, i1: u64, d2: u64, i2: u64)
    requires
        inode_number(d1, i1) == inode_number(d2, i2),
    ensures
        d1 == d2 && i1 == i2,
{
    assert(d1 as int * 0x1_0000_0000_0000_0000 + i1 as int == d2 as int * 0x1_0000_0000_0000_0000
        + i2 as int);
}

fn inode_number_exec(dev: u64, ino: u64) -> (n: u128)
    ensures
        n == inode_number(dev, ino),
{
    (dev as u128) * 0x1_0000_0000_0000_0000u128 + (ino as u128)
}

/// The bytes an entry adds to the scan, given the inode numbers already counted: none
/// for a directory or for data already counted through another hard link, else its size.
pub open spec fn effective_size_spec(
    node_type: NodeType,
    size: u64,
    inode_key: Option<(u64, u64)>,
    seen: Set<u128>,
) -> u64 {
    if node_type == NodeType::Dir {
        0
    } else {
        match inode_key {
            Some((dev, ino)) => if seen.contains(inode_number(dev, ino)) {
                0
            } else {
                size
            },
            None => size,
        }
    }
}

/// The inode numbers counted once an entry is accounted for.
pub open spec fn seen_after(node_type: NodeType, inode_key: Option<(u64, u64)>, seen: Set<u128>) -> Set<
    u128,
> {
    if node_type == NodeType::Dir {
        seen
    } else {
        match inode_key {
            Some((dev, ino)) => seen.insert(inode_number(dev, ino)),
            None => seen,
        }
    }
}

/// Hard links count once: after a file with a given (device, inode) pair has been
/// accounted for, another non-directory entry with the same pair adds no bytes, whatever
/// its size.
pub proof fn lemma_hard_link_counted_once(
    first: NodeType,
    second: NodeType,
    size: u64,
    dev: u64,
    ino: u64,
    seen: Set<u128>,
)
    requires
        first != NodeType::Dir,
    ensures
        effective_size_spec(second, size, Some((dev, ino)), seen_after(first, Some((dev, ino)), seen))
            == 0,
{
}

/// The bytes `entry` adds to the scan; records its inode number as counted.
pub fn effective_entry_size(entry: &ProcessedEntry, seen_inodes: &mut HashSet<u128>) -> (r: u64)
    ensures
        r == effective_size_spec(entry.node_type, entry.size, entry.inode_key, old(seen_inodes)@),
        final(seen_inodes)@ == seen_after(entry.node_type, entry.inode_key, old(seen_inodes)@),
{
    if entry.node_type == NodeType::Dir {
        return 0;
    }
    if let Some((dev, ino)) = entry.inode_key {
        let key = inode_number_exec(dev, ino);
        if !seen_inodes.insert(key) {
            return 0;
        }
    }
    entry.size
}

/// The scan's running state: the entries accounted for so far, the counts shown while
/// scanning, the inode numbers already counted, and the warnings.
pub struct ScanState {
    pub entries: Vec<RawEntry>,
    pub files_found: u64,
    pub bytes_found: u64,
    pub seen_inodes: HashSet<u128>,
    pub warnings: ScanWarnings,
}

/// How often (in entries) progress is reported.
pub open spec fn progress_interval() -> int {
    500
}

impl ScanState {
    /// The inode numbers already counted.
    pub open spec fn seen(&self) -> Set<u128> {
        self.seen_inodes@
    }

    pub fn new() -> (s: Self)
        ensures
            s.entries@.len() == 0,
            s.files_found == 0,
            s.bytes_found == 0,
            s.seen() == Set::<u128>::empty(),
            s.warnings.skipped_entries == 0,
    {
        ScanState {
            entries: Vec::new(),
            files_found: 0,
            bytes_found: 0,
            seen_inodes: HashSet::new(),
            warnings: ScanWarnings::default(),
        }
    }

    /// Accounts for one entry: counts it, adds the bytes it adds, and keeps it for the
    /// tree. Every `progress_interval()` entries, returns the progress to report.
    pub fn absorb(&mut self, entry: ProcessedEntry) -> (r: Option<ScanUpdate>)
        requires
            old(self).files_found < u64::MAX,
            old(self).bytes_found + effective_size_spec(
                entry.node_type,
                entry.size,
                entry.inode_key,
                old(self).seen(),
            ) <= u64::MAX,
        ensures
            ({
                let added = effective_size_spec(
                    entry.node_type,
                    entry.size,
                    entry.inode_key,
                    old(self).seen(),
                );
                &&& final(self).files_found == old(self).files_found + 1
                &&& final(self).bytes_found == old(self).bytes_found + added
                &&& final(self).seen() == seen_after(
                    entry.node_type,
                    entry.inode_key,
                    old(self).seen(),
                )
                &&& final(self).warnings == old(self).warnings
                &&& models(final(self).entries@) == models(old(self).entries@).push(
                    EntryModel {
                        comps: texts(entry.components@),
                        size: added,
                        node_type: entry.node_type,
                        modified: entry.modified,
                    },
                )
                &&& if final(self).files_found % 500 == 0 {
                    (r matches Some(ScanUpdate::Progress { files_found, bytes_found })
                        && files_found == final(self).files_found
                        && bytes_found == final(self).bytes_found)
                } else {
                    r is None
                }
            }),
    {
        self.files_found = self.files_found + 1;
        let size = effective_entry_size(&entry, &mut self.seen_inodes);
        self.bytes_found = self.bytes_found + size;
        let ghost before = self.entries@;
        self.entries.push(
            RawEntry {
                components: entry.components,
                size,
                node_type: entry.node_type,
                modified: entry.modified,
            },
        );
        proof {
            assert(models(self.entries@) =~= models(before).push(self.entries@.last()@));
        }
        if self.files_found % 500 == 0 {
            Some(ScanUpdate::Progress { files_found: self.files_found, bytes_found: self.bytes_found })
        } else {
            None
        }
    }

    /// Whether `entry` can be accounted for: the count and the byte total stay within 64
    /// bits.
    pub fn can_absorb(&self, entry: &ProcessedEntry) -> (r: bool)
        ensures
            r == (self.files_found < u64::MAX && self.bytes_found + effective_size_spec(
                entry.node_type,
                entry.size,
                entry.inode_key,
                self.seen(),
            ) <= u64::MAX),
    {
        if self.files_found == u64::MAX {
            return false;
        }
        let added: u64 = if entry.node_type == NodeType::Dir {
            0
        } else {
            match entry.inode_key {
                Some((dev, ino)) => {
                    if self.seen_inodes.contains(&inode_number_exec(dev, ino)) {
                        0
                    } else {
                        entry.size
                    }
                },
                None => entry.size,
            }
        };
        self.bytes_found <= u64::MAX - added
    }

    /// Records an entry that could not be read.
    pub fn note_skipped(&mut self)
        requires
            old(self).warnings.skipped_entries < u64::MAX,
        ensures
            final(self).warnings.skipped_entries == old(self).warnings.skipped_entries + 1,
            final(self).entries@ == old(self).entries@,
            final(self).files_found == old(self).files_found,
            final(self).bytes_found == old(self).bytes_found,
            final(self).seen() == old(self).seen(),
    {
        self.warnings.skipped_entries = self.warnings.skipped_entries + 1;
    }

    /// The progress report for the counts so far.
    pub fn progress(&self) -> (r: ScanUpdate)
        ensures
            (r matches ScanUpdate::Progress { files_found, bytes_found } && files_found
                == self.files_found && bytes_found == self.bytes_found),
    {
        ScanUpdate::Progress { files_found: self.files_found, bytes_found: self.bytes_found }
    }

    /// Ends the scan: builds the tree below a root named `root_name` from the entries and
    /// sorts it by size. The outcome is an error only when a directory's bytes do not fit
    /// in 64 bits.
    pub fn finish(self, root_name: String) -> (r: ScanUpdate)
        ensures
            totals_fit(models(self.entries@)) ==> r is Complete,
            r is Complete || r is Error,
            match r {
                ScanUpdate::Complete { root, warnings } => {
                    &&& warnings == self.warnings
                    &&& root.name@ == root_name@
                    &&& root.node_type == NodeType::Dir
                    &&& exists|built: DiskNode|
                        built_from(built, models(self.entries@), Seq::empty(), 0)
                            && #[trigger] sorted_from(root, built)
                },
                _ => true,
            },
    {
        match build_tree(root_name, &self.entries) {
            Some(tree) => {
                let ghost built = tree;
                let mut tree = tree;
                tree.sort_children_by_size();
                assert(sorted_from(tree, built));
                ScanUpdate::Complete { root: tree, warnings: self.warnings }
            },
            None => ScanUpdate::Error(String::from_str("directory sizes exceed 64 bits")),
        }
    }
}

} // verus!

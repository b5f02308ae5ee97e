//! The decisions a directory walk makes about each entry it reads.
use vstd::prelude::*;
use std::collections::HashSet;
use std::path::Path;

verus! {

broadcast use vstd::std_specs::hash::group_hash_axioms;

/// What kind of filesystem object an entry is, as its own metadata (not
/// following symlinks) reports it.
#[derive(Debug, Clone, Copy, PartialEq, Eq, Structural)]
pub enum EntryKind {
    Symlink,
    Dir,
    Other,
}

/// The metadata of one directory entry that the walk looks at.
#[derive(Debug, Clone, Copy)]
pub struct EntryMeta {
    pub kind: EntryKind,
    /// Device the entry lives on.
    pub dev: u64,
    /// Inode number.
    pub ino: u64,
    /// Logical length in bytes.
    pub len: u64,
    /// Allocated 512-byte blocks.
    pub blocks: u64,
    /// Number of hard links.
    pub nlink: u64,
}

/// What the walk does with an entry.
#[derive(Debug, Clone, Copy, PartialEq, Eq, Structural)]
pub enum EntryAction {
    /// The entry is on another device: leave it out.
    Skip,
    /// Count the entry as a file of this many bytes.
    File(u64),
    /// Descend into the entry as a subdirectory.
    Subdir,
}

/// A single number that stands for a (device, inode) pair.
pub open spec fn link_key(dev: u64, ino: u64) -> int {
    dev * 0x1_0000_0000_0000_0000 + ino
}

/// Different (device, inode) pairs get different keys.
pub proof fn lemma_link_key_injective(d1: u64, i1: u64, d2: u64, i2: u64)
    ensures
        link_key(d1, i1) == link_key(d2, i2) ==> d1 == d2 && i1 == i2,
{
    if d1 < d2 {
        assert(link_key(d1, i1) < link_key(d2, i2)) by (nonlinear_arith)
            requires d1 < d2, i1 < 0x1_0000_0000_0000_0000int, i2 >= 0;
    } else if d2 < d1 {
        assert(link_key(d2, i2) < link_key(d1, i1)) by (nonlinear_arith)
            requires d2 < d1, i2 < 0x1_0000_0000_0000_0000int, i1 >= 0;
    }
}

/// The (device, inode) pairs of the hard-linked files counted so far.
pub struct LinkTracker {
    seen: HashSet<u128>,
}

impl View for LinkTracker {
    type V = Set<(u64, u64)>;

    closed spec fn view(&self) -> Set<(u64, u64)> {
        Set::new(|p: (u64, u64)| self.seen@.contains(link_key(p.0, p.1) as u128))
    }
}

impl LinkTracker {
    /// A tracker that has seen nothing yet.
    pub fn new() -> (t: LinkTracker)
        ensures
            t@ == Set::<(u64, u64)>::empty(),
    {
        let t = LinkTracker { seen: HashSet::new() };
        assert(t@ =~= Set::<(u64, u64)>::empty());
        t
    }

    /// Records the pair and tells whether it was new.
    pub fn first_sighting(&mut self, dev: u64, ino: u64) -> (first: bool)
        ensures
            first == !old(self)@.contains((dev, ino)),
            final(self)@ == old(self)@.insert((dev, ino)),
    {
        let key: u128 = (dev as u128) * 0x1_0000_0000_0000_0000u128 + (ino as u128);
        let ghost before = self@;
        assert(key == link_key(dev, ino) as u128);
        let first = self.seen.insert(key);
        proof {
            assert forall|p: (u64, u64)| #[trigger] self@.contains(p) == before.insert((dev, ino)).contains(p) by {
                lemma_link_key_injective(p.0, p.1, dev, ino);
                assert(0 <= link_key(p.0, p.1) < 0x1_0000_0000_0000_0000_0000_0000_0000_0000) by (nonlinear_arith);
                assert(0 <= link_key(dev, ino) < 0x1_0000_0000_0000_0000_0000_0000_0000_0000) by (nonlinear_arith);
            }
            assert(self@ =~= before.insert((dev, ino)));
        }
        first
    }
}

/// Decides what to do with one entry of a directory on device `root_dev`:
/// entries on other devices are skipped, symlinks count their own length,
/// directories are descended into, and other files count their allocated
/// blocks, except that a file with several hard links counts only the first
/// time its (device, inode) pair is met.
pub fn classify_entry(meta: &EntryMeta, root_dev: u64, links: &mut LinkTracker) -> (action: EntryAction)
    requires
        meta.dev == root_dev && meta.kind == EntryKind::Other ==> meta.blocks * 512 <= u64::MAX,
    ensures
        meta.dev != root_dev ==> action == EntryAction::Skip,
        meta.dev == root_dev && meta.kind == EntryKind::Symlink ==> action == EntryAction::File(meta.len),
        meta.dev == root_dev && meta.kind == EntryKind::Dir ==> action == EntryAction::Subdir,
        meta.dev == root_dev && meta.kind == EntryKind::Other ==> action == EntryAction::File(
            if meta.nlink > 1 && old(links)@.contains((meta.dev, meta.ino)) {
                0
            } else {
                (meta.blocks * 512) as u64
            },
        ),
        final(links)@ == if meta.dev == root_dev && meta.kind == EntryKind::Other && meta.nlink > 1 {
            old(links)@.insert((meta.dev, meta.ino))
        } else {
            old(links)@
        },
{
    if meta.dev != root_dev {
        return EntryAction::Skip;
    }
    match meta.kind {
        EntryKind::Symlink => EntryAction::File(meta.len),
        EntryKind::Dir => EntryAction::Subdir,
        EntryKind::Other => {
            let mut size = meta.blocks * 512;
            if meta.nlink > 1 {
                if !links.first_sighting(meta.dev, meta.ino) {
                    size = 0;
                }
            }
            EntryAction::File(size)
        },
    }
}

/// The final component of the path `path` as `std::path::Path::file_name`
/// gives it, if the path has one.
pub uninterp spec fn path_file_name(path: Seq<char>) -> Option<Seq<char>>;

/// Calls `std::path::Path::file_name` on `path` and turns the component into
/// a `String`. The component is a piece of `path` itself, so the conversion
/// loses nothing; which piece it is (if any) is only named here.
#[verifier::external_body]
fn file_name_of(path: &str) -> (name: Option<String>)
    ensures
        match name {
            Some(n) => path_file_name(path@) == Some(n@),
            None => path_file_name(path@) is None,
        },
{
    match Path::new(path).file_name() {
        Some(n) => Some(n.to_string_lossy().into_owned()),
        None => None,
    }
}

/// The name a node gets: the final component of its path, or the whole path
/// when it has none.
pub fn name_or_path(file_name: Option<String>, path: &str) -> (name: String)
    ensures
        name@ == match file_name {
            Some(n) => n@,
            None => path@,
        },
{
    match file_name {
        Some(n) => n,
        None => path.to_owned(),
    }
}

/// The name of the node for a scanned path: its final component, or the path
/// itself when it has none (as for `/` or `..`).
pub fn node_name(path: &str) -> (name: String)
    ensures
        name@ == match path_file_name(path@) {
            Some(n) => n,
            None => path@,
        },
{
    name_or_path(file_name_of(path), path)
}

} // verus!

//! Which files and symlinks of a mount's source count toward its digest. The
//! directories are read elsewhere; this keeps which of them are left, and turns
//! what each holds into entries.
use crate::engine::cache::{Entry, EntryView, Listing};
use crate::paths;
use crate::paths::PathBuf;
use crate::text;
use vstd::prelude::*;

verus! {

/// The permission bits of which any one makes a file executable.
pub const EXECUTABLE: u32 = 0o111;

/// One name found in a directory, and what it is.
#[derive(Debug, PartialEq, Eq)]
pub enum Found {
    Directory(PathBuf),
    /// A symlink, and the path it holds.
    Link(PathBuf, String),
    /// Anything else, with its mode and what it holds.
    File(PathBuf, u32, Vec<u8>),
}

impl Found {
    /// Where it was found.
    pub open spec fn place(self) -> Seq<char> {
        match self {
            Found::Directory(path) => path@,
            Found::Link(path, _) => path@,
            Found::File(path, _, _) => path@,
        }
    }
}

/// A mount's source, and how far it has been read.
#[derive(Debug, PartialEq, Eq)]
pub struct Collection {
    root: PathBuf,
    pending: Vec<PathBuf>,
    entries: Vec<(String, Entry)>,
}

/// How far a mount's source has been read: its path, the directories left, and
/// the entries so far.
pub struct CollectionView {
    pub root: Seq<char>,
    pub pending: Seq<Seq<char>>,
    pub entries: Seq<(Seq<char>, EntryView)>,
}

impl View for Collection {
    type V = CollectionView;

    closed spec fn view(&self) -> CollectionView {
        CollectionView {
            root: self.root@,
            pending: text::views(self.pending@),
            entries: text::views(self.entries@),
        }
    }
}

/// Where a path stands below `root`.
pub open spec fn relative(root: Seq<char>, path: Seq<char>) -> Seq<char> {
    paths::remainder(path, paths::components(root).len())
}

/// Whether only directories of the mount's source are left to be read.
pub open spec fn stays_inside(collection: CollectionView) -> bool {
    forall|i: int|
        0 <= i < collection.pending.len() ==> paths::within(
            #[trigger] collection.pending[i],
            collection.root,
        )
}

/// A collection once `found` was seen: a directory is left to be read, and
/// anything else is an entry under its path relative to the root. A symlink is
/// never followed.
pub open spec fn seen(collection: CollectionView, found: Found) -> CollectionView {
    match found {
        Found::Directory(path) => CollectionView {
            pending: collection.pending.push(path@),
            ..collection
        },
        Found::Link(path, target) => CollectionView {
            entries: collection.entries.push(
                (relative(collection.root, path@), EntryView::Link { target: target@ }),
            ),
            ..collection
        },
        Found::File(path, mode, contents) => CollectionView {
            entries: collection.entries.push(
                (
                    relative(collection.root, path@),
                    EntryView::File { contents: contents@, executable: mode & EXECUTABLE != 0 },
                ),
            ),
            ..collection
        },
    }
}

impl Collection {
    /// Nothing read yet: the source itself is the one directory left.
    pub fn new(root: PathBuf) -> (r: Collection)
        ensures
            r@ == (CollectionView { root: root@, pending: seq![root@], entries: seq![] }),
            stays_inside(r@),
    {
        let mut pending = Vec::new();
        pending.push(root.clone());
        let r = Collection { root, pending, entries: Vec::new() };
        assert(r@.pending =~= seq![root@]);
        assert(r@.entries =~= seq![]);
        r
    }

    /// The directory to read next, taken off those that are left.
    pub fn next_directory(&mut self) -> (r: Option<PathBuf>)
        requires
            stays_inside(old(self)@),
        ensures
            stays_inside(final(self)@),
            match r {
                Some(directory) => {
                    &&& old(self)@.pending.len() > 0
                    &&& directory@ == old(self)@.pending.last()
                    &&& paths::within(directory@, old(self)@.root)
                    &&& final(self)@ == (CollectionView {
                        pending: old(self)@.pending.drop_last(),
                        ..old(self)@
                    })
                },
                None => old(self)@.pending.len() == 0 && final(self)@ == old(self)@,
            },
    {
        let r = self.pending.pop();
        assert(r is Some ==> self@.pending =~= old(self)@.pending.drop_last());
        r
    }

    /// Takes one name that a directory holds.
    pub fn see(&mut self, found: Found)
        requires
            stays_inside(old(self)@),
            paths::within(found.place(), old(self)@.root),
        ensures
            stays_inside(final(self)@),
            final(self)@ == seen(old(self)@, found),
    {
        match found {
            Found::Directory(path) => {
                proof {
                    text::lemma_views_push(self.pending@, path);
                }
                self.pending.push(path);
                assert forall|i: int| 0 <= i < self@.pending.len() implies paths::within(
                    #[trigger] self@.pending[i],
                    self@.root,
                ) by {
                    if i < old(self)@.pending.len() {
                        assert(self@.pending[i] == old(self)@.pending[i]);
                    }
                }
            },
            Found::Link(path, target) => {
                if let Some(rest) = path.strip_prefix(&self.root) {
                    let entry = (rest.display(), Entry::Link { target });
                    proof {
                        text::lemma_views_push(self.entries@, entry);
                    }
                    self.entries.push(entry);
                }
            },
            Found::File(path, mode, contents) => {
                let executable = mode & EXECUTABLE != 0;
                if let Some(rest) = path.strip_prefix(&self.root) {
                    let entry = (rest.display(), Entry::File { contents, executable });
                    proof {
                        text::lemma_views_push(self.entries@, entry);
                    }
                    self.entries.push(entry);
                }
            },
        }
    }

    /// What was read, once no directory is left.
    pub fn into_listing(self) -> (r: Listing)
        ensures
            match r {
                Listing::Read(entries) => text::views(entries@) == self@.entries,
                _ => false,
            },
    {
        Listing::Read(self.entries)
    }
}

/// What is found in a directory of a mount leads back to where it was: below the
/// source, an entry's path is the path it was found at.
pub proof fn law_entries_stand_where_they_were_found(root: Seq<char>, path: Seq<char>)
    requires
        root.len() > 0,
        paths::within(path, root),
    ensures
        paths::same_place(paths::joined(root, relative(root, path)), path),
{
    let n = paths::components(root).len();
    paths::lemma_components_nonempty(root);
    paths::lemma_remainder(path, n);
    let rest = relative(root, path);
    paths::lemma_joined(root, rest);
    paths::lemma_components_nonempty(rest);
    assert(paths::components(path) =~= paths::components(root) + paths::components(path).skip(
        n as int,
    ));
}

/// Two different places under a mount are two different entries: no file stands
/// in for another.
pub proof fn law_entries_are_told_apart(root: Seq<char>, a: Seq<char>, b: Seq<char>)
    requires
        root.len() > 0,
        paths::within(a, root),
        paths::within(b, root),
        relative(root, a) == relative(root, b),
    ensures
        paths::same_place(a, b),
{
    law_entries_stand_where_they_were_found(root, a);
    law_entries_stand_where_they_were_found(root, b);
}

/// A directory is left to be read; a link and a file are entries at once, under where
/// they stand below the root: a link by where it leads, and a file by what it holds
/// and whether anyone may run it. Nothing that was seen before is lost.
pub proof fn law_what_is_found_is_kept(collection: CollectionView, found: Found)
    ensures
        ({
            let after = seen(collection, found);
            &&& after.root == collection.root
            &&& match found {
                Found::Directory(path) => after.pending == collection.pending.push(path@)
                    && after.entries == collection.entries,
                Found::Link(path, target) => {
                    &&& after.pending == collection.pending
                    &&& after.entries.len() == collection.entries.len() + 1
                    &&& after.entries.drop_last() == collection.entries
                    &&& after.entries.last().0 == relative(collection.root, path@)
                    &&& after.entries.last().1 matches EntryView::Link { target: kept }
                    &&& kept == target@
                },
                Found::File(path, mode, contents) => {
                    &&& after.pending == collection.pending
                    &&& after.entries.len() == collection.entries.len() + 1
                    &&& after.entries.drop_last() == collection.entries
                    &&& after.entries.last().0 == relative(collection.root, path@)
                    &&& after.entries.last().1 matches EntryView::File {
                        contents: kept,
                        executable,
                    }
                    &&& kept == contents@
                    &&& executable == (mode & 0o111u32 != 0)
                },
            }
        }),
{
    assert(seen(collection, found).entries.drop_last() =~= collection.entries
        || found is Directory);
}

} // verus!

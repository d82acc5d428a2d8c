//! Which host paths a session can see, and where they land in the guest.
//!
//! `paths` beneath turns what the manifest says into host paths; `danger` on top
//! decides which of those should not be mounted at all.
pub mod danger;

use crate::paths;
use crate::paths::PathBuf;
use crate::text;
use vstd::prelude::*;

verus! {

/// Everything the session mounts lands under this one guest directory, so no
/// host path, and so no host username or directory layout, is visible inside
/// the container.
pub const WORKSPACE_TARGET: &'static str = "/workspace";

/// Directory entries a walk will look at before giving up. Large enough for an
/// ordinary source tree, small enough to stay imperceptible.
pub const WALK_LIMIT: usize = 50_000;

/// Why a host path is in the workspace: all `ls` needs to explain a mount.
#[derive(Clone, Copy, Debug, PartialEq, Eq, Structural)]
pub enum Origin {
    /// A `[[paths]]` entry: mounted because it was asked for by name.
    Explicit,
    /// A path asked for on this machine only.
    Local,
    /// The directory `compostbin` was invoked in.
    Project,
    /// A `[workspace] roots` entry.
    Root,
}

/// A host path and where it appears in the guest.
#[derive(Debug, PartialEq)]
pub struct Entry {
    pub guest: PathBuf,
    pub host: PathBuf,
    pub origin: Origin,
    pub readonly: bool,
}

impl Clone for Entry {
    fn clone(&self) -> (r: Self)
        ensures
            r == *self,
    {
        Entry {
            guest: self.guest.clone(),
            host: self.host.clone(),
            origin: self.origin,
            readonly: self.readonly,
        }
    }
}

/// An `Entry`, its paths as sequences of characters.
#[verifier::ext_equal]
pub struct EntryView {
    pub guest: Seq<char>,
    pub host: Seq<char>,
    pub origin: Origin,
    pub readonly: bool,
}

impl View for Entry {
    type V = EntryView;

    open spec fn view(&self) -> EntryView {
        EntryView {
            guest: self.guest@,
            host: self.host@,
            origin: self.origin,
            readonly: self.readonly,
        }
    }
}

/// The host paths a session exposes, each with the `/workspace` path it appears
/// at in the guest.
///
/// Each entry is its own bind mount: a tree of symlinks to the real projects
/// would not do, since a host symlink that points out of a mounted tree dangles
/// in the container.
#[derive(Debug, PartialEq)]
pub struct Workspace {
    pub entries: Vec<Entry>,
}

impl View for Workspace {
    type V = Seq<EntryView>;

    open spec fn view(&self) -> Seq<EntryView> {
        text::views(self.entries@)
    }
}

/// Whether a name below `/workspace` is some entry's guest path.
pub open spec fn is_taken(entries: Seq<EntryView>, name: Seq<char>) -> bool {
    exists|i: int|
        0 <= i < entries.len() && paths::same_place(
            (#[trigger] entries[i]).guest,
            paths::joined(WORKSPACE_TARGET@, name),
        )
}

/// The name that a host path would have in the guest: its last component, or
/// `root` where it has none.
pub open spec fn base_name(host: Seq<char>) -> Seq<char> {
    match paths::file_name(host) {
        Some(name) => name,
        None => "root"@,
    }
}

/// A name with a number that tells it apart.
pub open spec fn numbered(base: Seq<char>, k: nat) -> Seq<char> {
    base + "-"@ + text::decimal(k)
}

/// Whether `k` is the least number, from 2 up, that makes a name free.
pub open spec fn is_least_free(entries: Seq<EntryView>, base: Seq<char>, k: nat) -> bool {
    &&& k >= 2
    &&& !is_taken(entries, numbered(base, k))
    &&& forall|j: nat| 2 <= j < k ==> is_taken(entries, #[trigger] numbered(base, j))
}

/// What an entry for `host` is called: its base name where that is free, and
/// otherwise the base name with the least number, from 2 up, that makes it free.
pub open spec fn unique_name(entries: Seq<EntryView>, host: Seq<char>) -> Seq<char> {
    let base = base_name(host);
    if !is_taken(entries, base) {
        base
    } else {
        numbered(base, choose|k: nat| is_least_free(entries, base, k))
    }
}

/// Where `host` lands: at its target where one was declared, and otherwise
/// below `/workspace` under its unique name.
pub open spec fn guest_for(
    entries: Seq<EntryView>,
    host: Seq<char>,
    target: Option<Seq<char>>,
) -> Seq<char> {
    match target {
        Some(target) => target,
        None => paths::joined(WORKSPACE_TARGET@, unique_name(entries, host)),
    }
}

/// Entries, with one more for `host`.
pub open spec fn pushed(
    entries: Seq<EntryView>,
    host: Seq<char>,
    target: Option<Seq<char>>,
    origin: Origin,
    readonly: bool,
) -> Seq<EntryView> {
    entries.push(EntryView { guest: guest_for(entries, host, target), host, origin, readonly })
}

/// The index of the first entry that a host path lies within, if it lies within
/// one.
pub open spec fn first_within(entries: Seq<EntryView>, host: Seq<char>) -> Option<int>
    decreases entries.len(),
{
    if entries.len() == 0 {
        None
    } else {
        match first_within(entries.drop_last(), host) {
            Some(i) => Some(i),
            None => if paths::within(host, entries.last().host) {
                Some(entries.len() - 1)
            } else {
                None
            },
        }
    }
}

/// Where an entry makes a host path within it appear.
pub open spec fn translated(entry: EntryView, host: Seq<char>) -> Seq<char> {
    paths::joined(entry.guest, paths::remainder(host, paths::components(entry.host).len()))
}

/// The guest path for a host path in or under one of the entries.
pub open spec fn guest_path_of(entries: Seq<EntryView>, host: Seq<char>) -> Option<Seq<char>> {
    match first_within(entries, host) {
        Some(i) => Some(translated(entries[i], host)),
        None => None,
    }
}

proof fn lemma_first_within(entries: Seq<EntryView>, host: Seq<char>, i: int)
    requires
        0 <= i < entries.len(),
        paths::within(host, entries[i].host),
        first_within(entries.take(i), host) is None,
    ensures
        first_within(entries, host) == Some(i),
    decreases entries.len(),
{
    let rest = entries.drop_last();
    if i < rest.len() {
        assert(rest.take(i) =~= entries.take(i));
        lemma_first_within(rest, host, i);
    } else {
        assert(rest =~= entries.take(i));
    }
}

/// The entry found for a host path covers it, and no entry before it does;
/// where none is found, none does.
pub proof fn lemma_first_within_is_first(entries: Seq<EntryView>, host: Seq<char>)
    ensures
        match first_within(entries, host) {
            Some(i) => {
                &&& 0 <= i < entries.len()
                &&& paths::within(host, entries[i].host)
                &&& forall|j: int| 0 <= j < i ==> !paths::within(host, (#[trigger] entries[j]).host)
            },
            None => forall|j: int|
                0 <= j < entries.len() ==> !paths::within(host, (#[trigger] entries[j]).host),
        },
    decreases entries.len(),
{
    if entries.len() > 0 {
        lemma_first_within_is_first(entries.drop_last(), host);
        assert forall|j: int| 0 <= j < entries.len() - 1 implies (#[trigger] entries[j])
            == entries.drop_last()[j] by {}
    }
}

// ---------------------------------------------------------------------------
// Names
// ---------------------------------------------------------------------------

/// A base name is one component.
proof fn lemma_base_name(host: Seq<char>)
    ensures
        paths::is_name(base_name(host)),
        !base_name(host).contains('/'),
{
    paths::lemma_file_name(host);
    reveal_strlit("root");
}

/// A numbered name is one component.
proof fn lemma_numbered(base: Seq<char>, k: nat)
    requires
        paths::is_name(base),
        !base.contains('/'),
    ensures
        paths::is_name(numbered(base, k)),
        !numbered(base, k).contains('/'),
{
    let name = numbered(base, k);
    reveal_strlit("-");
    text::lemma_decimal(k);
    assert(name.len() >= 2);
    assert forall|i: int| 0 <= i < name.len() implies name[i] != '/' by {
        if i < base.len() {
            assert(name[i] == base[i]);
        } else if i > base.len() {
            assert(name[i] == text::decimal(k)[i - base.len() - 1]);
        }
    }
}

/// The name that the `k`-th attempt gives: the base name, then it with 2, 3
/// and so on.
spec fn attempt(base: Seq<char>, k: nat) -> Seq<char> {
    if k <= 1 {
        base
    } else {
        numbered(base, k)
    }
}

/// Two attempts that one entry's guest path matches are the same attempt.
proof fn lemma_attempts_differ(base: Seq<char>, a: nat, b: nat, guest: Seq<char>)
    requires
        paths::is_name(base),
        !base.contains('/'),
        a >= 1,
        b >= 1,
        paths::same_place(guest, paths::joined(WORKSPACE_TARGET@, attempt(base, a))),
        paths::same_place(guest, paths::joined(WORKSPACE_TARGET@, attempt(base, b))),
    ensures
        a == b,
{
    let x = attempt(base, a);
    let y = attempt(base, b);
    reveal_strlit("/workspace");
    lemma_numbered(base, a);
    lemma_numbered(base, b);
    paths::lemma_joined_name(WORKSPACE_TARGET@, x);
    paths::lemma_joined_name(WORKSPACE_TARGET@, y);
    let stem = paths::components(WORKSPACE_TARGET@);
    assert(stem.push(x).last() == stem.push(y).last());
    assert(x == y);
    reveal_strlit("-");
    text::lemma_decimal(a);
    text::lemma_decimal(b);
    if a >= 2 && b >= 2 {
        assert(x.skip(base.len() as int + 1) =~= text::decimal(a));
        assert(y.skip(base.len() as int + 1) =~= text::decimal(b));
    }
}

/// As many attempts as are taken, so many entries there are.
proof fn lemma_taken_attempts(entries: Seq<EntryView>, base: Seq<char>, k: nat)
    requires
        paths::is_name(base),
        !base.contains('/'),
        forall|j: nat| 1 <= j <= k ==> is_taken(entries, #[trigger] attempt(base, j)),
    ensures
        k <= entries.len(),
{
    let holder = |j: int| -> int
        {
            choose|i: int|
                0 <= i < entries.len() && paths::same_place(
                    (#[trigger] entries[i]).guest,
                    paths::joined(WORKSPACE_TARGET@, attempt(base, (j + 1) as nat)),
                )
        };
    let holders = Seq::new(k, holder);
    assert forall|j: int| 0 <= j < k implies 0 <= #[trigger] holders[j] < entries.len()
        && paths::same_place(
        entries[holders[j]].guest,
        paths::joined(WORKSPACE_TARGET@, attempt(base, (j + 1) as nat)),
    ) by {
        assert(is_taken(entries, attempt(base, (j + 1) as nat)));
    }
    assert forall|a: int, b: int| 0 <= a < k && 0 <= b < k && a != b implies holders[a]
        != holders[b] by {
        if holders[a] == holders[b] {
            lemma_attempts_differ(
                base,
                (a + 1) as nat,
                (b + 1) as nat,
                entries[holders[a]].guest,
            );
        }
    }
    assert(holders.no_duplicates());
    holders.unique_seq_to_set();
    let range = vstd::set_lib::set_int_range(0, entries.len() as int);
    vstd::set_lib::lemma_int_range(0, entries.len() as int);
    assert(holders.to_set().subset_of(range));
    vstd::set_lib::lemma_len_subset(holders.to_set(), range);
}

/// There is one least number that makes a name free.
proof fn lemma_least_free(entries: Seq<EntryView>, base: Seq<char>, k: nat)
    requires
        is_least_free(entries, base, k),
    ensures
        (choose|j: nat| is_least_free(entries, base, j)) == k,
{
    let j = choose|j: nat| is_least_free(entries, base, j);
    if j < k {
        assert(is_taken(entries, numbered(base, j)));
    }
    if k < j {
        assert(is_taken(entries, numbered(base, k)));
    }
}

/// Some number makes every name free.
proof fn lemma_some_name_is_free(entries: Seq<EntryView>, base: Seq<char>, from: nat)
    requires
        paths::is_name(base),
        !base.contains('/'),
        is_taken(entries, base),
        from >= 2,
        forall|j: nat| 2 <= j < from ==> is_taken(entries, #[trigger] numbered(base, j)),
    ensures
        exists|k: nat| #[trigger] is_least_free(entries, base, k),
    decreases entries.len() + 2 - from,
{
    if !is_taken(entries, numbered(base, from)) {
        assert(is_least_free(entries, base, from));
    } else {
        assert forall|j: nat| 1 <= j <= from implies is_taken(
            entries,
            #[trigger] attempt(base, j),
        ) by {
            if j >= 2 && j < from {
                assert(is_taken(entries, numbered(base, j)));
            }
        }
        lemma_taken_attempts(entries, base, from);
        lemma_some_name_is_free(entries, base, from + 1);
    }
}

/// What an entry is called is free.
proof fn lemma_unique_name_is_free(entries: Seq<EntryView>, host: Seq<char>)
    ensures
        !is_taken(entries, unique_name(entries, host)),
        paths::is_name(unique_name(entries, host)),
        !unique_name(entries, host).contains('/'),
        base_name(host).is_prefix_of(unique_name(entries, host)),
{
    let base = base_name(host);
    lemma_base_name(host);
    if is_taken(entries, base) {
        lemma_some_name_is_free(entries, base, 2);
        let k = choose|k: nat| is_least_free(entries, base, k);
        lemma_numbered(base, k);
        assert(base =~= numbered(base, k).subrange(0, base.len() as int));
    } else {
        assert(base =~= base.subrange(0, base.len() as int));
    }
}

impl Workspace {
    pub fn new() -> (r: Self)
        ensures
            r@ == Seq::<EntryView>::empty(),
    {
        let r = Workspace { entries: Vec::new() };
        assert(r@ =~= seq![]);
        r
    }

    /// Adds `host` under a `/workspace` name derived from its basename, or at
    /// `target` when one was declared. Later entries never take a name an earlier
    /// one holds (a second `libfoo` becomes `libfoo-2`), so two projects sharing a
    /// basename can both be mounted.
    pub fn push(&mut self, host: PathBuf, target: Option<PathBuf>, origin: Origin, readonly: bool)
        ensures
            final(self)@ == pushed(old(self)@, host@, text::view_of(target), origin, readonly),
    {
        let guest = match target {
            Some(target) => target,
            None => {
                let name = self.unique_name(&host);
                PathBuf::from(WORKSPACE_TARGET).join(name.as_str())
            },
        };
        let entry = Entry { guest, host, origin, readonly };
        proof {
            text::lemma_views_push(self.entries@, entry);
        }
        self.entries.push(entry);
    }

    pub fn entries(&self) -> (r: &[Entry])
        ensures
            text::views(r@) == self@,
    {
        self.entries.as_slice()
    }

    /// The guest path for a host path in or under one of the entries. `None` when
    /// nothing mounted covers it, which no guess can fix.
    pub fn guest_path(&self, host: &PathBuf) -> (r: Option<PathBuf>)
        ensures
            text::view_of(r) == guest_path_of(self@, host@),
    {
        let mut i: usize = 0;
        assert(self@.take(0) =~= seq![]);
        while i < self.entries.len()
            invariant
                i <= self.entries@.len(),
                first_within(self@.take(i as int), host@) is None,
            decreases self.entries.len() - i,
        {
            let entry = &self.entries[i];
            assert(self@[i as int] == entry@);
            assert(self@.take(i + 1).drop_last() =~= self@.take(i as int));
            assert(self@.take(i + 1).last() == entry@);
            if let Some(relative) = host.strip_prefix(&entry.host) {
                proof {
                    lemma_first_within(self@, host@, i as int);
                }
                return Some(entry.guest.join(relative.as_str()));
            }
            i = i + 1;
        }
        assert(self@.take(i as int) =~= self@);
        None
    }

    /// Whether some entry's guest path is that name below `/workspace`.
    fn taken(&self, name: &str) -> (r: bool)
        ensures
            r == is_taken(self@, name@),
    {
        let wanted = PathBuf::from(WORKSPACE_TARGET).join(name);
        let mut i: usize = 0;
        while i < self.entries.len()
            invariant
                i <= self.entries@.len(),
                wanted@ == paths::joined(WORKSPACE_TARGET@, name@),
                forall|j: int|
                    0 <= j < i ==> !paths::same_place((#[trigger] self@[j]).guest, wanted@),
            decreases self.entries.len() - i,
        {
            assert(self@[i as int] == self.entries@[i as int]@);
            if self.entries[i].guest.is(&wanted) {
                assert(paths::same_place(self@[i as int].guest, wanted@));
                return true;
            }
            i = i + 1;
        }
        false
    }

    /// `<basename>`, or `<basename>-2`, `-3`, … if taken. A path with no basename
    /// (`/`) is named `root`, which `doctor` complains about long before it is
    /// mounted.
    fn unique_name(&self, host: &PathBuf) -> (r: String)
        ensures
            r@ == unique_name(self@, host@),
    {
        let base = match host.file_name() {
            Some(name) => name,
            None => "root".to_string(),
        };
        assert(base@ == base_name(host@));
        if !self.taken(base.as_str()) {
            return base;
        }
        proof {
            lemma_base_name(host@);
        }
        let limit: u128 = self.entries.len() as u128 + 1;
        let mut k: u128 = 2;
        loop
            invariant
                2 <= k <= limit,
                limit == self@.len() + 1,
                base@ == base_name(host@),
                paths::is_name(base@),
                !base@.contains('/'),
                is_taken(self@, base@),
                forall|j: nat| 2 <= j < k ==> is_taken(self@, #[trigger] numbered(base@, j)),
            decreases limit + 1 - k,
        {
            let mut name = base.clone();
            name.append("-");
            name.append(text::decimal_text(k).as_str());
            assert(name@ == numbered(base@, k as nat));
            if !self.taken(name.as_str()) {
                proof {
                    lemma_least_free(self@, base@, k as nat);
                }
                return name;
            }
            proof {
                assert forall|j: nat| 1 <= j <= k implies is_taken(
                    self@,
                    #[trigger] attempt(base@, j),
                ) by {
                    if j >= 2 && j < k {
                        assert(is_taken(self@, numbered(base@, j)));
                    }
                }
                lemma_taken_attempts(self@, base@, k as nat);
            }
            k = k + 1;
        }
    }
}

/// A guest path derived from a host path is no earlier entry's guest path.
pub proof fn law_derived_guest_paths_are_new(entries: Seq<EntryView>, host: Seq<char>, i: int)
    requires
        0 <= i < entries.len(),
    ensures
        !paths::same_place(entries[i].guest, guest_for(entries, host, None)),
{
    lemma_unique_name_is_free(entries, host);
}

/// A guest path derived from a host path is `/workspace` and one name below
/// it: nothing of the host's directories shows but the last name.
pub proof fn law_derived_guest_paths_hide_the_host_layout(
    entries: Seq<EntryView>,
    host: Seq<char>,
)
    ensures
        paths::components(guest_for(entries, host, None)) == paths::components(
            WORKSPACE_TARGET@,
        ).push(unique_name(entries, host)),
        base_name(host).is_prefix_of(unique_name(entries, host)),
{
    lemma_unique_name_is_free(entries, host);
    reveal_strlit("/workspace");
    paths::lemma_joined_name(WORKSPACE_TARGET@, unique_name(entries, host));
}

/// A host path within an entry appears within the entry's guest path, at the
/// same place below it.
pub proof fn law_translation_keeps_the_place(entry: EntryView, host: Seq<char>)
    requires
        paths::within(host, entry.host),
        entry.host.len() > 0,
        entry.guest.len() > 0,
    ensures
        paths::components(translated(entry, host)) == paths::components(entry.guest)
            + paths::components(host).skip(paths::components(entry.host).len() as int),
        paths::within(translated(entry, host), entry.guest),
{
    let n = paths::components(entry.host).len();
    let rest = paths::remainder(host, n);
    paths::lemma_components_nonempty(entry.host);
    paths::lemma_remainder(host, n);
    paths::lemma_joined(entry.guest, rest);
    paths::lemma_joined_within(entry.guest, rest);
    if rest.len() == 0 {
        paths::lemma_components_nonempty(rest);
        assert(paths::components(translated(entry, host)) =~= paths::components(entry.guest)
            + paths::components(rest));
    }
}

// ---------------------------------------------------------------------------
// Symlinks that lead out of every mounted tree
// ---------------------------------------------------------------------------

/// A host symlink inside a mounted tree whose target lies outside every mounted
/// tree. It reads perfectly well on the host and is dead in the container, so
/// the path exists and simply is not there.
#[derive(Debug, PartialEq)]
pub struct Escape {
    pub link: PathBuf,
    pub target: PathBuf,
}

/// What a walk of the mounted trees found. `exhausted` matters as much as the
/// escapes: a root with a `target/` or `node_modules` under it has no useful
/// bound, so the walk stops rather than costing a minute of `doctor`, and says so
/// instead of reporting a clean tree it never finished reading.
#[derive(Debug, PartialEq)]
pub struct Escapes {
    pub escapes: Vec<Escape>,
    pub exhausted: bool,
}

impl Default for Escapes {
    fn default() -> (r: Self)
        ensures
            r.escapes@ == Seq::<Escape>::empty(),
            !r.exhausted,
    {
        Escapes { escapes: Vec::new(), exhausted: false }
    }
}

/// What a directory holds at one name.
#[derive(Debug, PartialEq)]
pub enum Child {
    /// A directory.
    Directory(PathBuf),
    /// A symlink, with the place it leads to, or nothing where it is broken.
    Link(PathBuf, Option<PathBuf>),
    /// A file, or something whose kind could not be read.
    Other,
}

/// A walk of the mounted trees: the directories still to be read, how many
/// names may still be looked at, and what was found.
#[derive(Debug, PartialEq)]
pub struct Walk {
    pub budget: usize,
    pub found: Escapes,
    pub pending: Vec<PathBuf>,
}

/// Whether some entry covers the host path.
pub open spec fn is_mounted(entries: Seq<EntryView>, host: Seq<char>) -> bool {
    exists|i: int| 0 <= i < entries.len() && paths::within(host, (#[trigger] entries[i]).host)
}

/// Whether an entry's host path lies inside no other entry's.
pub open spec fn is_outermost(entries: Seq<Entry>, i: int) -> bool {
    &&& 0 <= i < entries.len()
    &&& forall|j: int|
        0 <= j < entries.len() && paths::within(entries[i].host@, (#[trigger] entries[j]).host@)
            ==> paths::same_place(entries[j].host@, entries[i].host@)
}

/// Whether a path is the host path of an outermost entry.
pub open spec fn is_outer_host(entries: Seq<Entry>, path: PathBuf) -> bool {
    exists|i: int| #[trigger] is_outermost(entries, i) && entries[i].host == path
}

/// Whether paths are in order, with no two the same.
pub open spec fn is_ordered(found: Seq<PathBuf>) -> bool {
    forall|i: int, j: int|
        0 <= i < j < found.len() ==> paths::components_less(
            paths::components((#[trigger] found[i])@),
            paths::components((#[trigger] found[j])@),
        )
}

impl Workspace {
    /// Whether the host path of an entry lies inside no other entry's.
    fn outermost_entry(&self, i: usize) -> (r: bool)
        requires
            i < self.entries@.len(),
        ensures
            r == is_outermost(self.entries@, i as int),
    {
        let host = &self.entries[i].host;
        let mut j: usize = 0;
        while j < self.entries.len()
            invariant
                j <= self.entries@.len(),
                i < self.entries@.len(),
                host == self.entries@[i as int].host,
                forall|k: int|
                    0 <= k < j && paths::within(host@, (#[trigger] self.entries@[k]).host@)
                        ==> paths::same_place(self.entries@[k].host@, host@),
            decreases self.entries.len() - j,
        {
            let other = &self.entries[j].host;
            if !other.is(host) && host.starts_with(other) {
                assert(paths::within(host@, self.entries@[j as int].host@));
                return false;
            }
            j = j + 1;
        }
        true
    }

    /// Each mounted tree once, in the order of paths: an entry inside another, or
    /// repeating one, is already covered by the walk of the outer tree.
    pub fn outermost(&self) -> (r: Vec<PathBuf>)
        ensures
            is_ordered(r@),
            forall|k: int|
                    0 <= k < r@.len() ==> is_outer_host(self.entries@, #[trigger] r@[k]),
            forall|i: int| #[trigger]
                is_outermost(self.entries@, i) ==> exists|k: int|
                    0 <= k < r@.len() && paths::same_place(
                        (#[trigger] r@[k])@,
                        self.entries@[i].host@,
                    ),
    {
        let mut out: Vec<PathBuf> = Vec::new();
        let mut i: usize = 0;
        while i < self.entries.len()
            invariant
                i <= self.entries@.len(),
                is_ordered(out@),
                forall|k: int|
                    0 <= k < out@.len() ==> is_outer_host(self.entries@, #[trigger] out@[k]),
                forall|e: int|
                    e < i && #[trigger] is_outermost(self.entries@, e) ==> exists|k: int|
                        0 <= k < out@.len() && paths::same_place(
                            (#[trigger] out@[k])@,
                            self.entries@[e].host@,
                        ),
            decreases self.entries.len() - i,
        {
            if self.outermost_entry(i) {
                let ghost before = out@;
                insert_in_order(&mut out, self.entries[i].host.clone());
                proof {
                    assert forall|k: int| 0 <= k < out@.len() implies is_outer_host(
                        self.entries@,
                        #[trigger] out@[k],
                    ) by {
                        if out@[k] == self.entries@[i as int].host {
                            assert(is_outermost(self.entries@, i as int));
                        } else {
                            assert(before.contains(out@[k]));
                            let b = choose|b: int| 0 <= b < before.len() && before[b] == out@[k];
                            assert(is_outer_host(self.entries@, before[b]));
                        }
                    }
                    assert forall|e: int|
                        e < i + 1 && #[trigger] is_outermost(self.entries@, e) implies exists|
                        k: int,
                    |
                        0 <= k < out@.len() && paths::same_place(
                            (#[trigger] out@[k])@,
                            self.entries@[e].host@,
                        ) by {
                        if e < i {
                            let b = choose|b: int|
                                0 <= b < before.len() && paths::same_place(
                                    (#[trigger] before[b])@,
                                    self.entries@[e].host@,
                                );
                            assert(out@.contains(before[b]));
                            let k = choose|k: int| 0 <= k < out@.len() && out@[k] == before[b];
                            assert(paths::same_place(out@[k]@, self.entries@[e].host@));
                        }
                    }
                }
            }
            i = i + 1;
        }
        out
    }

    /// A walk of the mounted trees that has not begun.
    pub fn walk(&self, limit: usize) -> (r: Walk)
        ensures
            r.progress() == begun(limit as nat),
            is_ordered(r.pending@),
            forall|k: int|
                0 <= k < r.pending@.len() ==> is_outer_host(
                    self.entries@,
                    #[trigger] r.pending@[k],
                ),
            forall|i: int| #[trigger]
                is_outermost(self.entries@, i) ==> exists|k: int|
                    0 <= k < r.pending@.len() && paths::same_place(
                        (#[trigger] r.pending@[k])@,
                        self.entries@[i].host@,
                    ),
    {
        Walk { budget: limit, found: Escapes::default(), pending: self.outermost() }
    }
}

/// Puts a path where it belongs in the order, unless it is there already.
pub(crate) fn insert_in_order(found: &mut Vec<PathBuf>, path: PathBuf)
    requires
        is_ordered(old(found)@),
    ensures
        is_ordered(final(found)@),
        forall|k: int|
            0 <= k < old(found)@.len() ==> final(found)@.contains(#[trigger] old(found)@[k]),
        forall|k: int|
            0 <= k < final(found)@.len() ==> (#[trigger] final(found)@[k]) == path
                || old(found)@.contains(final(found)@[k]),
        exists|k: int|
            0 <= k < final(found)@.len() && paths::same_place(
                (#[trigger] final(found)@[k])@,
                path@,
            ),
{
    let mut k: usize = 0;
    while k < found.len() && found[k].before(&path)
        invariant
            k <= found@.len(),
            found@ == old(found)@,
            forall|j: int|
                0 <= j < k ==> paths::components_less(
                    paths::components((#[trigger] found@[j])@),
                    paths::components(path@),
                ),
        decreases found.len() - k,
    {
        k = k + 1;
    }
    let ghost old_found = found@;
    if k < found.len() && found[k].is(&path) {
        assert(paths::same_place(found@[k as int]@, path@));
        return;
    }
    proof {
        if k < found@.len() {
            paths::lemma_components_less_total(
                paths::components(found@[k as int]@),
                paths::components(path@),
            );
        }
    }
    found.insert(k, path);
    proof {
        assert(found@ == old_found.insert(k as int, path));
        assert forall|i: int, j: int| 0 <= i < j < found@.len() implies paths::components_less(
            paths::components((#[trigger] found@[i])@),
            paths::components((#[trigger] found@[j])@),
        ) by {
            if i == k && j > k {
                assert(found@[j] == old_found[j - 1]);
                if j - 1 > k {
                    assert(paths::components_less(
                        paths::components(old_found[k as int]@),
                        paths::components(old_found[j - 1]@),
                    ));
                    paths::lemma_components_less_transitive(
                        paths::components(path@),
                        paths::components(old_found[k as int]@),
                        paths::components(old_found[j - 1]@),
                    );
                }
            } else if i < k && j < k {
                assert(found@[i] == old_found[i] && found@[j] == old_found[j]);
            } else if i < k && j > k {
                assert(found@[i] == old_found[i] && found@[j] == old_found[j - 1]);
            } else if i > k {
                assert(found@[i] == old_found[i - 1] && found@[j] == old_found[j - 1]);
            }
        }
        assert forall|j: int| 0 <= j < old_found.len() implies found@.contains(
            #[trigger] old_found[j],
        ) by {
            if j < k {
                assert(found@[j] == old_found[j]);
            } else {
                assert(found@[j + 1] == old_found[j]);
            }
        }
        assert forall|j: int| 0 <= j < found@.len() implies (#[trigger] found@[j]) == path
            || old_found.contains(found@[j]) by {
            if j < k {
                assert(found@[j] == old_found[j]);
            } else if j > k {
                assert(found@[j] == old_found[j - 1]);
            }
        }
        assert(paths::same_place(found@[k as int]@, path@));
    }
}

/// How far a walk has come: how many names may still be looked at, which escapes
/// were found, in order, and whether there was more to look at than it may.
#[verifier::ext_equal]
pub struct Progress {
    pub budget: nat,
    pub escapes: Seq<Escape>,
    pub exhausted: bool,
}

/// A walk that may look at so many names, and has looked at none.
pub open spec fn begun(limit: nat) -> Progress {
    Progress { budget: limit, escapes: seq![], exhausted: false }
}

/// The escape that a name is: a link to a place that no entry covers.
pub open spec fn escape_at(entries: Seq<EntryView>, child: Child) -> Option<Escape> {
    match child {
        Child::Link(link, Some(target)) if !is_mounted(entries, target@) => Some(
            Escape { link, target },
        ),
        _ => None,
    }
}

/// How far a walk has come once it has looked at one more name.
pub open spec fn visited(entries: Seq<EntryView>, progress: Progress, child: Child) -> Progress {
    if progress.budget == 0 {
        Progress { exhausted: true, ..progress }
    } else {
        Progress {
            budget: (progress.budget - 1) as nat,
            escapes: match escape_at(entries, child) {
                Some(escape) => progress.escapes.push(escape),
                None => progress.escapes,
            },
            exhausted: progress.exhausted,
        }
    }
}

/// How far a walk has come once it has looked at some names, in order.
pub open spec fn walked(entries: Seq<EntryView>, limit: nat, seen: Seq<Child>) -> Progress
    decreases seen.len(),
{
    if seen.len() == 0 {
        begun(limit)
    } else {
        visited(entries, walked(entries, limit, seen.drop_last()), seen.last())
    }
}

/// The escapes among names, in order.
pub open spec fn escapes_among(entries: Seq<EntryView>, seen: Seq<Child>) -> Seq<Escape>
    decreases seen.len(),
{
    if seen.len() == 0 {
        seq![]
    } else {
        let rest = escapes_among(entries, seen.drop_last());
        match escape_at(entries, seen.last()) {
            Some(escape) => rest.push(escape),
            None => rest,
        }
    }
}

/// A walk finds the escapes among the names it may look at, all of them and in
/// order, and says that it was exhausted exactly where there were more names.
pub proof fn law_a_walk_finds_every_escape(
    entries: Seq<EntryView>,
    limit: nat,
    seen: Seq<Child>,
)
    ensures
        walked(entries, limit, seen).escapes == escapes_among(
            entries,
            seen.take(if seen.len() <= limit {
                seen.len() as int
            } else {
                limit as int
            }),
        ),
        walked(entries, limit, seen).exhausted == (seen.len() > limit),
        walked(entries, limit, seen).budget == (if seen.len() <= limit {
            limit - seen.len()
        } else {
            0
        }),
    decreases seen.len(),
{
    if seen.len() == 0 {
        assert(seen.take(0) =~= seen);
    } else {
        let rest = seen.drop_last();
        law_a_walk_finds_every_escape(entries, limit, rest);
        if seen.len() <= limit {
            assert(rest.take(rest.len() as int) =~= rest);
            assert(seen.take(seen.len() as int) =~= seen);
        } else if rest.len() <= limit {
            assert(rest.take(rest.len() as int) =~= seen.take(limit as int));
        } else {
            assert(rest.take(limit as int) =~= seen.take(limit as int));
        }
    }
}

/// A link is among the escapes if and only if it was seen and leads out of every
/// mounted tree.
pub proof fn law_escapes_lead_out_of_every_mounted_tree(
    entries: Seq<EntryView>,
    seen: Seq<Child>,
    link: PathBuf,
    target: PathBuf,
)
    ensures
        escapes_among(entries, seen).contains(Escape { link, target }) <==> !is_mounted(
            entries,
            target@,
        ) && seen.contains(Child::Link(link, Some(target))),
    decreases seen.len(),
{
    let escape = Escape { link, target };
    let child = Child::Link(link, Some(target));
    let whole = escapes_among(entries, seen);
    if seen.len() > 0 {
        let rest = seen.drop_last();
        let shorter = escapes_among(entries, rest);
        law_escapes_lead_out_of_every_mounted_tree(entries, rest, link, target);
        assert(seen =~= rest.push(seen.last()));
        if shorter.contains(escape) {
            let k = choose|k: int| 0 <= k < shorter.len() && shorter[k] == escape;
            assert(whole[k] == escape);
        }
        if rest.contains(child) {
            let k = choose|k: int| 0 <= k < rest.len() && rest[k] == child;
            assert(seen[k] == child);
        }
        if seen.last() == child {
            assert(seen[seen.len() - 1] == child);
            if !is_mounted(entries, target@) {
                assert(whole[whole.len() - 1] == escape);
            }
        }
        if seen.contains(child) && !rest.contains(child) {
            let k = choose|k: int| 0 <= k < seen.len() && seen[k] == child;
            assert(k == seen.len() - 1) by {
                if k < rest.len() {
                    assert(rest[k] == child);
                }
            }
        }
        if whole.contains(escape) && !shorter.contains(escape) {
            let k = choose|k: int| 0 <= k < whole.len() && whole[k] == escape;
            assert(k == whole.len() - 1 && escape_at(entries, seen.last()) == Some(escape)) by {
                if k < shorter.len() {
                    assert(shorter[k] == escape);
                }
            }
        }
    }
}

impl Walk {
    /// How far it has come.
    pub open spec fn progress(&self) -> Progress {
        Progress {
            budget: self.budget as nat,
            escapes: self.found.escapes@,
            exhausted: self.found.exhausted,
        }
    }

    /// The directory to read next, taken off those still to be read.
    pub fn next_directory(&mut self) -> (r: Option<PathBuf>)
        ensures
            final(self).progress() == old(self).progress(),
            match r {
                Some(directory) => {
                    &&& old(self).pending@.len() > 0
                    &&& directory == old(self).pending@[0]
                    &&& final(self).pending@ == old(self).pending@.skip(1)
                },
                None => old(self).pending@.len() == 0 && final(self).pending@ == old(self).pending@,
            },
    {
        if self.pending.len() == 0 {
            None
        } else {
            let directory = self.pending.remove(0);
            assert(self.pending@ =~= old(self).pending@.skip(1));
            Some(directory)
        }
    }

    /// Looks at one name that a directory holds; answers whether the walk goes on.
    ///
    /// Symlinks are found, never followed: a link to a directory is reported and
    /// not descended into, which bounds the walk against cycles and matches what
    /// the container sees. A link broken on the host too is skipped: equally
    /// broken in both places is not a divergence.
    pub fn visit(&mut self, workspace: &Workspace, child: Child) -> (r: bool)
        ensures
            r == (old(self).progress().budget > 0),
            final(self).progress() == visited(workspace@, old(self).progress(), child),
            final(self).pending@ == match child {
                Child::Directory(path) if r => old(self).pending@.push(path),
                _ => old(self).pending@,
            },
    {
        if self.budget == 0 {
            self.found.exhausted = true;
            return false;
        }
        self.budget = self.budget - 1;
        match child {
            Child::Directory(path) => self.pending.push(path),
            Child::Link(link, Some(target)) => {
                proof {
                    lemma_first_within_is_first(workspace@, target@);
                }
                match workspace.guest_path(&target) {
                    Some(_) => {},
                    None => self.found.escapes.push(Escape { link, target }),
                }
            },
            Child::Link(_, None) => {},
            Child::Other => {},
        }
        true
    }
}

/// A host path appears under its own last name where no entry is there yet; where
/// one is, its name is followed by the least number, from 2 up, that no entry has.
/// A declared target is taken as it is.
pub proof fn law_a_taken_name_gets_the_least_free_number(
    entries: Seq<EntryView>,
    host: Seq<char>,
    target: Seq<char>,
)
    ensures
        guest_for(entries, host, Some(target)) == target,
        ({
            let base = match paths::file_name(host) {
                Some(name) => name,
                None => "root"@,
            };
            let at = |name: Seq<char>| paths::joined("/workspace"@, name);
            let free = |name: Seq<char>|
                forall|i: int|
                    0 <= i < entries.len() ==> !paths::same_place(
                        (#[trigger] entries[i]).guest,
                        at(name),
                    );
            let guest = guest_for(entries, host, None);
            &&& free(base) ==> guest == at(base)
            &&& !free(base) ==> exists|k: nat|
                k >= 2 && guest == at(base + "-"@ + #[trigger] text::decimal(k)) && free(
                    base + "-"@ + text::decimal(k),
                ) && forall|j: nat|
                    2 <= j < k ==> !free(base + "-"@ + #[trigger] text::decimal(j))
        }),
{
    let base = base_name(host);
    let at = |name: Seq<char>| paths::joined("/workspace"@, name);
    let free = |name: Seq<char>|
        forall|i: int|
            0 <= i < entries.len() ==> !paths::same_place(
                (#[trigger] entries[i]).guest,
                at(name),
            );
    assert forall|name: Seq<char>| #[trigger] free(name) == !is_taken(entries, name) by {}
    lemma_base_name(host);
    if !free(base) {
        assert(is_taken(entries, base));
        lemma_some_name_is_free(entries, base, 2);
        let k = choose|k: nat| is_least_free(entries, base, k);
        assert(numbered(base, k) == base + "-"@ + text::decimal(k));
        assert(free(numbered(base, k)));
        assert forall|j: nat| 2 <= j < k implies !free(base + "-"@ + #[trigger] text::decimal(j)) by {
            assert(is_taken(entries, numbered(base, j)));
            assert(free(numbered(base, j)) == !is_taken(entries, numbered(base, j)));
        }
    }
}

/// A host path has a guest path exactly where some entry covers it, and the first
/// entry that does says which: what lies below the entry's host path lies below its
/// guest path, by the same names.
pub proof fn law_the_first_entry_that_covers_a_path_places_it(
    entries: Seq<EntryView>,
    host: Seq<char>,
    i: int,
)
    requires
        forall|k: int|
            0 <= k < entries.len() ==> (#[trigger] entries[k]).host.len() > 0
                && entries[k].guest.len() > 0,
    ensures
        guest_path_of(entries, host) is None <==> forall|k: int|
            0 <= k < entries.len() ==> !paths::within(host, (#[trigger] entries[k]).host),
        0 <= i < entries.len() && paths::within(host, entries[i].host) && (forall|k: int|
            0 <= k < i ==> !paths::within(host, (#[trigger] entries[k]).host)) ==> {
            &&& guest_path_of(entries, host) matches Some(guest)
            &&& paths::components(guest) == paths::components(entries[i].guest)
                + paths::components(host).skip(paths::components(entries[i].host).len() as int)
        },
{
    lemma_first_within_is_first(entries, host);
    if 0 <= i < entries.len() && paths::within(host, entries[i].host) && (forall|k: int|
        0 <= k < i ==> !paths::within(host, (#[trigger] entries[k]).host)) {
        let found = first_within(entries, host)->0;
        assert(first_within(entries, host) is Some);
        assert(found == i) by {
            if found < i {
                assert(!paths::within(host, entries[found].host));
            }
            if i < found {
                assert(!paths::within(host, entries[i].host));
            }
        }
        law_translation_keeps_the_place(entries[i], host);
    }
}

/// A new entry comes last, and is of the path, the origin and the access it was made
/// for; no entry before it changes.
pub proof fn law_an_entry_is_added_last(
    entries: Seq<EntryView>,
    host: Seq<char>,
    target: Option<Seq<char>>,
    origin: Origin,
    readonly: bool,
)
    ensures
        ({
            let after = pushed(entries, host, target, origin, readonly);
            &&& after.len() == entries.len() + 1
            &&& after.take(entries.len() as int) == entries
            &&& after.last().host == host
            &&& after.last().origin == origin
            &&& after.last().readonly == readonly
            &&& target matches Some(target) ==> after.last().guest == target
        }),
{
    assert(pushed(entries, host, target, origin, readonly).take(entries.len() as int) =~= entries);
}

/// A link that was seen is an escape exactly where what it leads to is neither an
/// entry's host path nor below one.
pub proof fn law_only_links_out_of_every_entry_escape(
    entries: Seq<EntryView>,
    link: PathBuf,
    target: PathBuf,
)
    ensures
        escape_at(entries, Child::Link(link, Some(target))) == (if forall|i: int|
            0 <= i < entries.len() ==> !paths::within(target@, (#[trigger] entries[i]).host) {
            Some(Escape { link, target })
        } else {
            None
        }),
        escape_at(entries, Child::Link(link, None)) is None,
{
}

/// Every entry's tree is in that of an outermost one, so that walking those walks all
/// that is mounted.
pub proof fn law_every_entry_is_in_an_outermost_one(entries: Seq<Entry>, i: int)
    requires
        0 <= i < entries.len(),
    ensures
        exists|j: int| #[trigger]
            is_outermost(entries, j) && paths::within(entries[i].host@, entries[j].host@),
    decreases paths::components(entries[i].host@).len(),
{
    let mine = paths::components(entries[i].host@);
    assert(mine =~= mine.subrange(0, mine.len() as int));
    if !is_outermost(entries, i) {
        let j = choose|j: int|
            0 <= j < entries.len() && paths::within(
                entries[i].host@,
                (#[trigger] entries[j]).host@,
            ) && !paths::same_place(entries[j].host@, entries[i].host@);
        let theirs = paths::components(entries[j].host@);
        assert(theirs =~= mine.subrange(0, theirs.len() as int));
        if theirs.len() == mine.len() {
            assert(theirs =~= mine);
        }
        law_every_entry_is_in_an_outermost_one(entries, j);
        let k = choose|k: int| #[trigger]
            is_outermost(entries, k) && paths::within(entries[j].host@, entries[k].host@);
        paths::lemma_within(entries[i].host@, entries[j].host@, entries[k].host@);
    }
}

/// No outermost tree is inside another: two of them are the same place, or neither
/// is within the other.
pub proof fn law_outermost_trees_are_apart(entries: Seq<Entry>, i: int, j: int)
    requires
        is_outermost(entries, i),
        is_outermost(entries, j),
    ensures
        paths::within(entries[i].host@, entries[j].host@) ==> paths::same_place(
            entries[i].host@,
            entries[j].host@,
        ),
{
}

} // verus!

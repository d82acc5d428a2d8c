//! The project manifest: what it says, and what follows from it.
pub mod commands;
pub mod memory;

use crate::engine::model::copy_text;
use crate::manifest::commands::{Commands, HostCommand, HostCommandView};
use crate::manifest::memory::Memory;
use crate::paths;
use crate::paths::PathBuf;
use crate::text;
use vstd::prelude::*;

verus! {

/// Session state, keyed by container name: the assistant's home, which persists so
/// `--continue` works, beside the spool, which `clean` removes.
pub const SESSIONS_DIR: &'static str = "~/.local/state/compostbin/sessions";

pub const DEFAULT_CONTAINER_CPUS: u32 = 4;

/// In gibibytes.
pub const DEFAULT_CONTAINER_MEMORY: u64 = 8;

pub const DEFAULT_HOST_CONCURRENCY: usize = 8;

pub const DEFAULT_IMAGE: &'static str = "compostbin/base:latest";

/// Checked in beside the project it configures.
pub const MANIFEST_RELATIVE_PATH: &'static str = ".config/compostbin.toml";

/// Beside the manifest, and deliberately not checked in: one developer's own
/// `[[paths]]`, which the rest of the project has no reason to mount.
pub const LOCAL_MANIFEST_RELATIVE_PATH: &'static str = ".config/compostbin.local.toml";

/// The host command `[host] clipboard` serves, and what the guest's `pbcopy`,
/// `xclip`, `xsel` and `wl-copy` send.
pub const CLIPBOARD_COMMAND: &'static str = "clipboard";

const CLIPBOARD_PROGRAM: &'static str = "pbcopy";

// ---------------------------------------------------------------------------
// Tables
// ---------------------------------------------------------------------------

#[derive(Debug, PartialEq)]
pub struct ClaudeConfig {
    /// Overrides the per-session default under `SESSIONS_DIR`. Normally unset:
    /// sharing one home between projects would make `--continue` resume whichever
    /// project spoke last.
    pub home: Option<String>,
    pub seed_from_keychain: bool,
    /// Extra entries of the host's own assistant home, files or whole directories,
    /// that this project wants beyond the host settings every session already gets.
    pub shared: Vec<String>,
}

impl Default for ClaudeConfig {
    fn default() -> (r: Self)
        ensures
            r.home is None,
            r.seed_from_keychain,
            r.shared@.len() == 0,
    {
        ClaudeConfig { home: None, seed_from_keychain: true, shared: Vec::new() }
    }
}

#[derive(Debug, PartialEq)]
pub struct ContainerConfig {
    pub cpus: u32,
    pub env: Vec<String>,
    pub memory: Memory,
    /// Shell lines run in the container once it is up, before the assistant.
    pub setup: Vec<String>,
}

impl Default for ContainerConfig {
    fn default() -> (r: Self)
        ensures
            r.cpus == DEFAULT_CONTAINER_CPUS,
            r.env@.len() == 0,
            r.memory.size == 8 * memory::GIBIBYTE,
            r.setup@.len() == 0,
    {
        ContainerConfig {
            cpus: DEFAULT_CONTAINER_CPUS,
            env: Vec::new(),
            memory: Memory::gibibytes(DEFAULT_CONTAINER_MEMORY),
            setup: Vec::new(),
        }
    }
}

/// What the guest may reach on the host: commands, keyed by the name it sends,
/// and ports.
#[derive(Debug, PartialEq)]
pub struct HostConfig {
    /// Lets the guest's clipboard tools write to the host's pasteboard, by serving
    /// `clipboard` as though it were declared. Off by default: whatever the guest
    /// copies, the user may later paste into a host terminal. Write-only, so
    /// nothing on the host clipboard reaches the guest.
    pub clipboard: bool,
    /// How many may run at once: subagents call `compostbin-host` independently,
    /// and the bound stops a guest looping on submissions from spawning unlimited
    /// work.
    pub concurrency: usize,
    /// Host loopback ports the guest reaches at its own `localhost`, each relayed
    /// through a unix socket carried into this container alone.
    pub ports: Vec<u16>,
    pub commands: Commands,
}

impl Default for HostConfig {
    fn default() -> (r: Self)
        ensures
            !r.clipboard,
            r.concurrency == DEFAULT_HOST_CONCURRENCY,
            r.ports@.len() == 0,
            r.commands@.len() == 0,
    {
        HostConfig {
            clipboard: false,
            concurrency: DEFAULT_HOST_CONCURRENCY,
            ports: Vec::new(),
            commands: Commands::new(),
        }
    }
}

/// The command that `[host] clipboard` serves.
pub open spec fn clipboard_command() -> HostCommandView {
    HostCommandView { arguments: false, argv: seq!["pbcopy"@], deny: seq![], tty: false }
}

impl HostConfig {
    /// Whether the guest may ask for any command.
    pub open spec fn serves_commands(&self) -> bool {
        self.clipboard || self.commands@.len() > 0
    }

    /// What is served under a name: what is declared there, or the clipboard
    /// command under its own name where the clipboard is on.
    pub open spec fn served(&self, name: Seq<char>) -> Option<HostCommandView> {
        match commands::lookup(self.commands@, name) {
            Some(command) => Some(command),
            None => if self.clipboard && name == "clipboard"@ {
                Some(clipboard_command())
            } else {
                None
            },
        }
    }

    /// Whether this is everything that is served, in order of its names.
    pub open spec fn is_served_list(&self, list: Seq<(Seq<char>, HostCommandView)>) -> bool {
        commands::is_ordered(list) && forall|name: Seq<char>| #[trigger]
            commands::lookup(list, name) == self.served(name)
    }

    /// Everything that is served, in order of its names.
    pub open spec fn served_list(&self) -> Seq<(Seq<char>, HostCommandView)> {
        choose|list: Seq<(Seq<char>, HostCommandView)>| self.is_served_list(list)
    }

    /// No commands, no channel: the spool is neither created nor mounted, so a
    /// project that has not opted in has no way to run anything on the host.
    pub fn has_commands(&self) -> (r: bool)
        ensures
            r == self.serves_commands(),
    {
        self.clipboard || !self.commands.is_empty()
    }

    /// What the agent serves: `commands`, plus `clipboard` when it is on. A
    /// declared `clipboard` wins, so a project can point it elsewhere.
    pub fn served_commands(&self) -> (r: Commands)
        ensures
            self.is_served_list(r@),
            r@ == self.served_list(),
            !self.clipboard ==> r@ == self.commands@,
    {
        let mut served = self.commands.clone();
        if self.clipboard && !served.contains_key(CLIPBOARD_COMMAND) {
            let mut argv: Vec<String> = Vec::new();
            argv.push(CLIPBOARD_PROGRAM.to_string());
            let command = HostCommand { arguments: false, argv, deny: Vec::new(), tty: false };
            assert(command@.argv =~= clipboard_command().argv);
            assert(command@.deny =~= clipboard_command().deny);
            served.insert(CLIPBOARD_COMMAND.to_string(), command);
        }
        proof {
            assert(self.is_served_list(served@));
            let list = self.served_list();
            assert forall|name: Seq<char>| #[trigger]
                commands::lookup(served@, name) == commands::lookup(list, name) by {
                assert(commands::lookup(list, name) == self.served(name));
            }
            commands::lemma_determined(served@, list);
        }
        served
    }

    /// No ports, no listener: nothing binds on the host.
    pub fn has_ports(&self) -> (r: bool)
        ensures
            r == (self.ports@.len() > 0),
    {
        self.ports.len() > 0
    }

    /// Neither commands nor ports: the guest has no path to the host at all.
    pub fn is_empty(&self) -> (r: bool)
        ensures
            r == (!self.serves_commands() && self.ports@.len() == 0),
    {
        !self.has_commands() && !self.has_ports()
    }
}

/// Per-project image additions, for what belongs to one project rather than
/// every project; direnv, say. Non-empty means the session runs a derived image
/// built `FROM` the base; empty means it runs the base image itself.
#[derive(Debug, PartialEq)]
pub struct ImageConfig {
    /// `apt-get install`ed as root, before `run_as_root` and `run`.
    pub packages: Vec<String>,
    /// Shell lines run as the session's user, so a command writing to `~` lands in
    /// the home the session actually uses.
    pub run: Vec<String>,
    /// Shell lines run as root, after `packages` and before the image drops to
    /// that user, for what only root can do, like writing under `/etc`. Anything
    /// touching the session's home belongs in `run`.
    pub run_as_root: Vec<String>,
}

impl Default for ImageConfig {
    fn default() -> (r: Self)
        ensures
            r.adds_nothing(),
    {
        ImageConfig { packages: Vec::new(), run: Vec::new(), run_as_root: Vec::new() }
    }
}

impl ImageConfig {
    /// Whether the session runs the base image itself.
    pub open spec fn adds_nothing(&self) -> bool {
        self.packages@.len() == 0 && self.run@.len() == 0 && self.run_as_root@.len() == 0
    }

    pub fn is_empty(&self) -> (r: bool)
        ensures
            r == self.adds_nothing(),
    {
        self.packages.len() == 0 && self.run.len() == 0 && self.run_as_root.len() == 0
    }
}

/// A `[[paths]]` entry.
#[derive(Debug, PartialEq, Eq)]
pub struct PathEntry {
    /// Which file the entry came from, never written: an entry belongs to the
    /// local manifest or the committed one, and the file it is written back to is
    /// what says so.
    pub local: bool,
    pub readonly: bool,
    pub source: String,
    /// An absolute *guest* path, for the rare case where something must appear at
    /// a fixed location. The default, `/workspace/<basename>`, is what keeps host
    /// paths out of the container.
    pub target: Option<String>,
}

/// A `PathEntry`, its texts as sequences of characters.
#[verifier::ext_equal]
pub struct PathEntryView {
    pub local: bool,
    pub readonly: bool,
    pub source: Seq<char>,
    pub target: Option<Seq<char>>,
}

impl View for PathEntry {
    type V = PathEntryView;

    open spec fn view(&self) -> PathEntryView {
        PathEntryView {
            local: self.local,
            readonly: self.readonly,
            source: self.source@,
            target: text::view_of(self.target),
        }
    }
}

impl Clone for PathEntry {
    fn clone(&self) -> (r: Self)
        ensures
            r == *self,
    {
        PathEntry {
            local: self.local,
            readonly: self.readonly,
            source: self.source.clone(),
            target: copy_text(&self.target),
        }
    }
}

#[derive(Debug, PartialEq, Eq)]
pub struct ProjectConfig {
    pub image: String,
    pub name: Option<String>,
}

impl Default for ProjectConfig {
    fn default() -> (r: Self)
        ensures
            r.image@ == DEFAULT_IMAGE@,
            r.name is None,
    {
        ProjectConfig { image: DEFAULT_IMAGE.to_string(), name: None }
    }
}

/// Roots default to empty: mounting a workspace tree read-write is opt-in.
#[derive(Debug, PartialEq, Eq)]
pub struct WorkspaceConfig {
    pub roots: Vec<String>,
}

impl Default for WorkspaceConfig {
    fn default() -> (r: Self)
        ensures
            r.roots@.len() == 0,
    {
        WorkspaceConfig { roots: Vec::new() }
    }
}

// ---------------------------------------------------------------------------
// Entries by the file they belong to
// ---------------------------------------------------------------------------

/// The entries that belong to the local manifest, or to the committed one, in
/// order.
pub open spec fn belonging(entries: Seq<PathEntryView>, local: bool) -> Seq<PathEntryView>
    decreases entries.len(),
{
    if entries.len() == 0 {
        seq![]
    } else {
        let rest = belonging(entries.drop_last(), local);
        if entries.last().local == local {
            rest.push(entries.last())
        } else {
            rest
        }
    }
}

/// Entries with the texts they are ordered by.
pub open spec fn by_source(entries: Seq<PathEntryView>) -> Seq<(Seq<char>, PathEntryView)> {
    entries.map_values(|entry: PathEntryView| (entry.source, entry))
}

/// The entries of one of the two files as that file lists them: in the order
/// of their sources.
pub open spec fn listed(entries: Seq<PathEntryView>, local: bool) -> Seq<PathEntryView> {
    text::sorted(by_source(belonging(entries, local))).map_values(
        |pair: (Seq<char>, PathEntryView)| pair.1,
    )
}

/// Entries marked as the local manifest's own.
pub open spec fn marked_local(entries: Seq<PathEntryView>) -> Seq<PathEntryView> {
    entries.map_values(|entry: PathEntryView| PathEntryView { local: true, ..entry })
}

fn list_entries(entries: &Vec<PathEntry>, local: bool) -> (r: Vec<PathEntry>)
    ensures
        text::views(r@) == listed(text::views(entries@), local),
{
    let ghost whole = text::views(entries@);
    let mut pairs: Vec<(String, PathEntry)> = Vec::new();
    let mut i: usize = 0;
    assert(text::views(pairs@) =~= by_source(belonging(whole.take(0), local)));
    while i < entries.len()
        invariant
            i <= entries@.len(),
            whole == text::views(entries@),
            text::views(pairs@) == by_source(belonging(whole.take(i as int), local)),
        decreases entries.len() - i,
    {
        assert(whole.take(i + 1).drop_last() =~= whole.take(i as int));
        assert(whole.take(i + 1).last() == entries@[i as int]@);
        if entries[i].local == local {
            let pair = (entries[i].source.clone(), entries[i].clone());
            proof {
                text::lemma_views_push(pairs@, pair);
                assert(by_source(belonging(whole.take(i + 1), local)) =~= by_source(
                    belonging(whole.take(i as int), local),
                ).push(pair@));
            }
            pairs.push(pair);
        }
        i = i + 1;
    }
    assert(whole.take(i as int) =~= whole);
    let sorted = text::sort_pairs(pairs);
    let ghost ordered = text::views(sorted@);
    assert(ordered.len() == sorted@.len());
    let mut out: Vec<PathEntry> = Vec::new();
    let mut k: usize = 0;
    while k < sorted.len()
        invariant
            k <= sorted@.len(),
            ordered == text::views(sorted@),
            out@.len() == k,
            forall|j: int| 0 <= j < k ==> (#[trigger] out@[j])@ == ordered[j].1,
        decreases sorted.len() - k,
    {
        assert(ordered[k as int] == sorted@[k as int]@);
        out.push(sorted[k].1.clone());
        k = k + 1;
    }
    assert(text::views(out@) =~= listed(whole, local));
    out
}

/// The uncommitted manifest beside a committed one: `[[paths]]` and nothing
/// else, since everything else in a manifest describes the project rather than
/// the developer.
#[derive(Debug, PartialEq)]
pub struct LocalManifest {
    pub paths: Vec<PathEntry>,
}

impl Default for LocalManifest {
    fn default() -> (r: Self)
        ensures
            r.paths@.len() == 0,
    {
        LocalManifest { paths: Vec::new() }
    }
}

/// `…/compostbin.toml` becomes `…/compostbin.local.toml`, so a manifest found
/// anywhere has its overlay beside it.
pub fn local_path(manifest_path: &PathBuf) -> (r: PathBuf)
    ensures
        r@ == paths::with_extension(manifest_path@, "local.toml"@),
{
    manifest_path.with_extension("local.toml")
}

// ---------------------------------------------------------------------------
// The manifest
// ---------------------------------------------------------------------------

#[derive(Debug, PartialEq)]
pub struct Manifest {
    pub claude: ClaudeConfig,
    pub container: ContainerConfig,
    pub host: HostConfig,
    /// Per-project additions to the base image.
    pub image: ImageConfig,
    /// Both files' entries, each knowing which one it came from; rendering keeps
    /// only the ones that belong to the file being written.
    pub paths: Vec<PathEntry>,
    pub project: ProjectConfig,
    pub workspace: WorkspaceConfig,
}

impl Manifest {
    /// Whether everything is as a manifest that says nothing has it, but for
    /// the project's name.
    pub open spec fn is_default(&self) -> bool {
        &&& self.claude.home is None
        &&& self.claude.seed_from_keychain
        &&& self.claude.shared@.len() == 0
        &&& self.container.cpus == DEFAULT_CONTAINER_CPUS
        &&& self.container.env@.len() == 0
        &&& self.container.memory.size == 8 * memory::GIBIBYTE
        &&& self.container.setup@.len() == 0
        &&& !self.host.clipboard
        &&& self.host.concurrency == DEFAULT_HOST_CONCURRENCY
        &&& self.host.ports@.len() == 0
        &&& self.host.commands@.len() == 0
        &&& self.image.adds_nothing()
        &&& self.paths@.len() == 0
        &&& self.project.image@ == DEFAULT_IMAGE@
        &&& self.workspace.roots@.len() == 0
    }

    /// The default manifest, for a project called what its directory is.
    pub fn named_after(project_dir: &PathBuf) -> (r: Self)
        ensures
            r.is_default(),
            text::view_of(r.project.name) == paths::file_name(project_dir@),
    {
        let mut manifest = Manifest::default();
        manifest.project.name = project_dir.file_name();
        manifest
    }

    /// The committed manifest, plus the entries of the local one beside it.
    pub fn overlay(&mut self, local: LocalManifest)
        ensures
            text::views(final(self).paths@) == text::views(old(self).paths@) + marked_local(
                text::views(local.paths@),
            ),
            final(self).claude == old(self).claude,
            final(self).container == old(self).container,
            final(self).host == old(self).host,
            final(self).image == old(self).image,
            final(self).project == old(self).project,
            final(self).workspace == old(self).workspace,
    {
        let ghost marked = marked_local(text::views(local.paths@));
        let ghost before = text::views(self.paths@);
        let mut i: usize = 0;
        assert(before =~= before + marked.take(0));
        while i < local.paths.len()
            invariant
                i <= local.paths@.len(),
                marked == marked_local(text::views(local.paths@)),
                before == text::views(old(self).paths@),
                text::views(self.paths@) == before + marked.take(i as int),
                self.claude == old(self).claude,
                self.container == old(self).container,
                self.host == old(self).host,
                self.image == old(self).image,
                self.project == old(self).project,
                self.workspace == old(self).workspace,
            decreases local.paths.len() - i,
        {
            let mut entry = local.paths[i].clone();
            entry.local = true;
            proof {
                text::lemma_views_push(self.paths@, entry);
                assert(marked[i as int] == entry@);
                assert(before + marked.take(i + 1) =~= (before + marked.take(i as int)).push(
                    entry@,
                ));
            }
            self.paths.push(entry);
            i = i + 1;
        }
        assert(marked.take(i as int) =~= marked);
    }

    /// The entries the committed manifest lists. Local ones are dropped rather
    /// than written, so saving a manifest loaded with an overlay writes back what
    /// it read.
    pub fn shared_paths(&self) -> (r: Vec<PathEntry>)
        ensures
            text::views(r@) == listed(text::views(self.paths@), false),
    {
        list_entries(&self.paths, false)
    }

    /// What the local manifest lists, or nothing where nothing local is left and
    /// the file goes, so an emptied overlay does not linger as an empty one.
    pub fn local_manifest(&self) -> (r: Option<LocalManifest>)
        ensures
            match r {
                Some(local) => text::views(local.paths@) == listed(text::views(self.paths@), true)
                    && local.paths@.len() > 0,
                None => listed(text::views(self.paths@), true).len() == 0,
            },
    {
        let paths = list_entries(&self.paths, true);
        assert(text::views(paths@).len() == paths@.len());
        if paths.len() == 0 {
            None
        } else {
            Some(LocalManifest { paths })
        }
    }
}

impl Default for Manifest {
    fn default() -> (r: Self)
        ensures
            r.is_default(),
            r.project.name is None,
    {
        Manifest {
            claude: ClaudeConfig::default(),
            container: ContainerConfig::default(),
            host: HostConfig::default(),
            image: ImageConfig::default(),
            paths: Vec::new(),
            project: ProjectConfig::default(),
            workspace: WorkspaceConfig::default(),
        }
    }
}

// ---------------------------------------------------------------------------
// Laws
// ---------------------------------------------------------------------------

proof fn lemma_belonging_concat(a: Seq<PathEntryView>, b: Seq<PathEntryView>, local: bool)
    ensures
        belonging(a + b, local) == belonging(a, local) + belonging(b, local),
    decreases b.len(),
{
    if b.len() == 0 {
        assert(a + b =~= a);
        assert(belonging(a, local) + belonging(b, local) =~= belonging(a, local));
    } else {
        lemma_belonging_concat(a, b.drop_last(), local);
        assert((a + b).drop_last() =~= a + b.drop_last());
        assert((a + b).last() == b.last());
        assert(belonging(a + b, local) =~= belonging(a, local) + belonging(b, local));
    }
}

proof fn lemma_belonging_all(entries: Seq<PathEntryView>, local: bool)
    requires
        forall|i: int| 0 <= i < entries.len() ==> (#[trigger] entries[i]).local == local,
    ensures
        belonging(entries, local) == entries,
        belonging(entries, !local) == Seq::<PathEntryView>::empty(),
    decreases entries.len(),
{
    if entries.len() > 0 {
        let rest = entries.drop_last();
        assert forall|i: int| 0 <= i < rest.len() implies (#[trigger] rest[i]).local == local by {
            assert(rest[i] == entries[i]);
        }
        lemma_belonging_all(rest, local);
        assert(entries.last() == entries[entries.len() - 1]);
        assert(entries =~= rest.push(entries.last()));
    } else {
        assert(entries =~= Seq::empty());
    }
}

/// What one developer mounts never reaches the committed file, nor what the
/// project mounts the local one: a manifest loaded with an overlay lists in
/// each file exactly what came from it.
pub proof fn law_each_file_lists_its_own(
    committed: Seq<PathEntryView>,
    overlay: Seq<PathEntryView>,
)
    requires
        forall|i: int| 0 <= i < committed.len() ==> !(#[trigger] committed[i]).local,
    ensures
        listed(committed + marked_local(overlay), false) == listed(committed, false),
        listed(committed + marked_local(overlay), true) == listed(marked_local(overlay), true),
{
    let marked = marked_local(overlay);
    lemma_belonging_concat(committed, marked, false);
    lemma_belonging_concat(committed, marked, true);
    lemma_belonging_all(committed, false);
    assert forall|i: int| 0 <= i < marked.len() implies (#[trigger] marked[i]).local by {}
    lemma_belonging_all(marked, true);
    assert(belonging(committed + marked, false) =~= committed);
    assert(belonging(committed + marked, true) =~= marked);
}

/// A file lists its entries in the order of their sources, and neither loses
/// nor adds one.
pub proof fn law_entries_are_listed_in_order(entries: Seq<PathEntryView>, local: bool)
    ensures
        listed(entries, local).to_multiset() == belonging(entries, local).to_multiset(),
        forall|i: int, j: int|
            0 <= i < j < listed(entries, local).len() ==> !text::less(
                (#[trigger] listed(entries, local)[j]).source,
                (#[trigger] listed(entries, local)[i]).source,
            ),
{
    let own = belonging(entries, local);
    let pairs = by_source(own);
    let ordered = text::sorted(pairs);
    text::lemma_sorted(pairs);
    lemma_sorted_pairs_keep_names(own);
    lemma_map_multiset(ordered, pairs);
    assert(pairs.map_values(|pair: (Seq<char>, PathEntryView)| pair.1) =~= own);
}

proof fn lemma_sorted_pairs_keep_names(own: Seq<PathEntryView>)
    ensures
        forall|i: int|
            0 <= i < text::sorted(by_source(own)).len() ==> (#[trigger] text::sorted(
                by_source(own),
            )[i]).0 == text::sorted(by_source(own))[i].1.source,
{
    broadcast use vstd::seq_lib::group_to_multiset_ensures;

    let pairs = by_source(own);
    let ordered = text::sorted(pairs);
    text::lemma_sorted(pairs);
    assert forall|i: int| 0 <= i < ordered.len() implies (#[trigger] ordered[i]).0
        == ordered[i].1.source by {
        assert(ordered.contains(ordered[i]));
        assert(ordered.to_multiset().contains(ordered[i]));
        assert(pairs.to_multiset().contains(ordered[i]));
        assert(pairs.contains(ordered[i]));
        let k = choose|k: int| 0 <= k < pairs.len() && pairs[k] == ordered[i];
        assert(pairs[k] == (own[k].source, own[k]));
    }
}

proof fn lemma_map_multiset(a: Seq<(Seq<char>, PathEntryView)>, b: Seq<(Seq<char>, PathEntryView)>)
    requires
        a.to_multiset() == b.to_multiset(),
    ensures
        a.map_values(|pair: (Seq<char>, PathEntryView)| pair.1).to_multiset() == b.map_values(
            |pair: (Seq<char>, PathEntryView)| pair.1,
        ).to_multiset(),
    decreases a.len(),
{
    broadcast use vstd::seq_lib::group_to_multiset_ensures;

    let second = |pair: (Seq<char>, PathEntryView)| pair.1;
    if a.len() == 0 {
        assert(a.to_multiset().len() == 0);
        assert(b.to_multiset().len() == 0);
        assert(a.map_values(second) =~= b.map_values(second));
    } else {
        let x = a.last();
        assert(a.contains(x));
        assert(a.to_multiset().contains(x));
        assert(b.contains(x));
        let k = choose|k: int| 0 <= k < b.len() && b[k] == x;
        let rest = b.remove(k);
        assert(a =~= a.drop_last().push(x));
        assert(b.remove(k).to_multiset() =~= b.to_multiset().remove(x));
        assert(a.drop_last().to_multiset() =~= a.to_multiset().remove(x));
        lemma_map_multiset(a.drop_last(), rest);
        assert(a.map_values(second) =~= a.drop_last().map_values(second).push(x.1));
        assert(rest.map_values(second) =~= b.map_values(second).remove(k));
        assert(b.map_values(second)[k] == x.1);
        assert(b.map_values(second).contains(x.1));
        assert(b.map_values(second).to_multiset().contains(x.1));
        assert(b.map_values(second).remove(k).to_multiset() =~= b.map_values(
            second,
        ).to_multiset().remove(x.1));
        assert(a.map_values(second).to_multiset() =~= b.map_values(second).to_multiset());
    }
}

/// A command is served under every declared name, exactly as it is declared;
/// turning the clipboard on adds its command and nothing else.
pub proof fn law_declared_commands_win(host: &HostConfig, name: Seq<char>)
    ensures
        commands::lookup(host.commands@, name) is Some ==> host.served(name) == commands::lookup(
            host.commands@,
            name,
        ),
        host.served(name) is Some ==> commands::lookup(host.commands@, name) is Some || (
        host.clipboard && name == "clipboard"@),
{
}

proof fn lemma_belonging_members(entries: Seq<PathEntryView>, local: bool, entry: PathEntryView)
    ensures
        belonging(entries, local).contains(entry) <==> entries.contains(entry) && entry.local
            == local,
        belonging(entries, true).len() + belonging(entries, false).len() == entries.len(),
    decreases entries.len(),
{
    if entries.len() > 0 {
        let rest = entries.drop_last();
        let shorter = belonging(rest, local);
        let whole = belonging(entries, local);
        lemma_belonging_members(rest, local, entry);
        assert(entries[entries.len() - 1] == entries.last());
        if shorter.contains(entry) {
            let k = choose|k: int| 0 <= k < shorter.len() && shorter[k] == entry;
            assert(whole[k] == entry);
        }
        if rest.contains(entry) {
            let k = choose|k: int| 0 <= k < rest.len() && rest[k] == entry;
            assert(entries[k] == entry);
        }
        if entries.last() == entry && entry.local == local {
            assert(whole[whole.len() - 1] == entry);
        }
        if entries.contains(entry) && !rest.contains(entry) {
            let k = choose|k: int| 0 <= k < entries.len() && entries[k] == entry;
            if k < rest.len() {
                assert(rest[k] == entry);
            }
        }
        if whole.contains(entry) && !shorter.contains(entry) {
            let k = choose|k: int| 0 <= k < whole.len() && whole[k] == entry;
            if k < shorter.len() {
                assert(shorter[k] == entry);
            }
        }
    }
}

/// Every entry is listed in the file it came from and in no other: an entry is in
/// the local file exactly where it is there and local, and together the two files
/// hold as many entries as there are.
pub proof fn law_every_entry_is_listed_in_its_file(
    entries: Seq<PathEntryView>,
    local: bool,
    entry: PathEntryView,
)
    ensures
        listed(entries, local).contains(entry) <==> entries.contains(entry) && entry.local == local,
        listed(entries, true).len() + listed(entries, false).len() == entries.len(),
{
    broadcast use vstd::seq_lib::group_to_multiset_ensures;

    law_entries_are_listed_in_order(entries, local);
    law_entries_are_listed_in_order(entries, true);
    law_entries_are_listed_in_order(entries, false);
    lemma_belonging_members(entries, local, entry);
    let shown = listed(entries, local);
    let own = belonging(entries, local);
    assert(shown.contains(entry) <==> shown.to_multiset().contains(entry));
    assert(own.contains(entry) <==> own.to_multiset().contains(entry));
    assert(listed(entries, true).len() == listed(entries, true).to_multiset().len());
    assert(belonging(entries, true).len() == belonging(entries, true).to_multiset().len());
    assert(listed(entries, false).len() == listed(entries, false).to_multiset().len());
    assert(belonging(entries, false).len() == belonging(entries, false).to_multiset().len());
}

/// Marking entries as local changes nothing else of them, and leaves none out.
pub proof fn law_an_overlay_keeps_its_entries(overlay: Seq<PathEntryView>, i: int)
    requires
        0 <= i < overlay.len(),
    ensures
        marked_local(overlay).len() == overlay.len(),
        marked_local(overlay)[i].local,
        marked_local(overlay)[i].readonly == overlay[i].readonly,
        marked_local(overlay)[i].source == overlay[i].source,
        marked_local(overlay)[i].target == overlay[i].target,
{
}

/// With the clipboard on, `pbcopy` is served for it, alone and unwidened, where the
/// manifest declares no command of that name; with it off, only what is declared is.
pub proof fn law_the_clipboard_is_served_where_it_is_on(host: &HostConfig, name: Seq<char>)
    ensures
        host.clipboard && commands::lookup(host.commands@, "clipboard"@) is None ==> {
            &&& host.served("clipboard"@) matches Some(command)
            &&& command.argv == seq!["pbcopy"@]
            &&& command.deny.len() == 0
            &&& !command.arguments
            &&& !command.tty
        },
        !host.clipboard ==> host.served(name) == commands::lookup(host.commands@, name),
        name != "clipboard"@ ==> host.served(name) == commands::lookup(host.commands@, name),
        host.clipboard ==> host.serves_commands(),
        host.served(name) is Some ==> host.serves_commands(),
{
    if let Some(command) = commands::lookup(host.commands@, name) {
        assert(commands::has_name(host.commands@, name));
    }
}

/// A manifest that says nothing opens nothing: no command, no port, no path, no
/// root, no variable and no setup, on four processors, eight gibibytes and the base
/// image.
pub proof fn law_a_manifest_that_says_nothing_opens_nothing(manifest: &Manifest)
    requires
        manifest.is_default(),
    ensures
        !manifest.host.serves_commands(),
        forall|name: Seq<char>| (#[trigger] manifest.host.served(name)) is None,
        manifest.host.ports@.len() == 0,
        manifest.host.concurrency == 8,
        manifest.paths@.len() == 0,
        manifest.workspace.roots@.len() == 0,
        manifest.container.env@.len() == 0,
        manifest.container.setup@.len() == 0,
        manifest.container.cpus == 4,
        manifest.container.memory.size == 8589934592,
        manifest.project.image@ == "compostbin/base:latest"@,
        manifest.image.packages@.len() == 0,
        manifest.claude.home is None,
        manifest.claude.seed_from_keychain,
        manifest.claude.shared@.len() == 0,
{
}

/// Laying the local manifest over the committed one adds its entries, every one and
/// marked as local, behind the committed ones, and changes nothing else.
pub proof fn law_an_overlay_only_adds_local_entries(
    manifest: &mut Manifest,
    local: LocalManifest,
    i: int,
)
    requires
        call_ensures(Manifest::overlay, (manifest, local), ()),
    ensures
        ({
            let before = old(manifest).paths@;
            let after = final(manifest).paths@;
            &&& after.len() == before.len() + local.paths@.len()
            &&& 0 <= i < before.len() ==> after[i]@ == before[i]@
            &&& 0 <= i < local.paths@.len() ==> {
                let entry = after[before.len() + i];
                &&& entry.local
                &&& entry.source@ == local.paths@[i].source@
                &&& entry.readonly == local.paths@[i].readonly
                &&& text::view_of(entry.target) == text::view_of(local.paths@[i].target)
            }
        }),
        final(manifest).host == old(manifest).host,
        final(manifest).image == old(manifest).image,
        final(manifest).container == old(manifest).container,
        final(manifest).project == old(manifest).project,
        final(manifest).workspace == old(manifest).workspace,
        final(manifest).claude == old(manifest).claude,
{
    let before = old(manifest).paths@;
    let after = final(manifest).paths@;
    let shown = text::views(after);
    assert(shown.len() == after.len());
    if 0 <= i < before.len() {
        assert(shown[i] == text::views(before)[i]);
    }
    if 0 <= i < local.paths@.len() {
        assert(shown[before.len() + i] == marked_local(text::views(local.paths@))[i]);
        assert(after[before.len() + i]@ == shown[before.len() + i]);
    }
}

} // verus!

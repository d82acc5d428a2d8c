//! One project's container, and the state that outlives it.
//!
//! The submodules are what a session owns rather than uses: its image, its
//! token, the host's own config it starts from, and the record of what its
//! container was created with. Mounts are built here, from the workspace.
pub mod briefing;
pub mod clean;
pub mod credentials;
pub mod image;
pub mod record;
pub mod run;
pub mod settings;

use crate::assistant;
use crate::assistant::Assistant;
use crate::engine::model::{
    EnvVar, EnvVarView, ExecSpec, ExecSpecView, Mount, MountView, Resources, RunSpec, RunSpecView,
    SocketRelay, SocketRelayView,
};
use crate::host;
use crate::host::ports;
use crate::host::ports::Forward;
use crate::host::spool::Spool;
use crate::manifest::{Manifest, PathEntry, PathEntryView, SESSIONS_DIR};
use crate::paths;
use crate::paths::{PathBuf, PathResolver};
use crate::text;
use crate::workspace;
use crate::workspace::{EntryView, Origin, Workspace};
use vstd::prelude::*;

verus! {

/// Under the session state directory: requests in flight. `clean` empties it
/// rather than removing it, because the container mounts it.
pub const SPOOL_DIR: &'static str = "host";

/// Under the session state directory: one bound socket per declared port,
/// owned by the `run` that created the container and living exactly as long.
pub const PORTS_DIR: &'static str = "ports";

/// Where the relay says what it could not, while a session is attached.
pub const PORTS_LOG: &'static str = "ports.log";

/// Under the session state directory: what this session tells its assistant about
/// itself.
pub const MANAGED_SETTINGS_DIR: &'static str = "managed";

/// Beside the assistant's home and the spool: the mounts the container was created
/// with.
pub const RECORD_FILE: &'static str = "mounts.toml";

/// The container's own process, keeping it alive so `exec` has something to
/// attach to.
pub const KEEPALIVE_COMMAND: [&'static str; 2] = ["sleep", "infinity"];

/// The guest half of host port forwarding, run as the container's own process
/// when the manifest declares ports.
pub const GUEST_PORTS_NAME: &'static str = "compostbin-ports";

pub const NAME_PREFIX: &'static str = "compostbin-";

/// Names no real compositor: nothing in the guest draws, it only has to be set.
pub const CLIPBOARD_DISPLAY: &'static str = "compostbin-clipboard";

/// What `add` did, and therefore what the caller must do next.
#[derive(Debug, PartialEq)]
pub enum AddOutcome {
    /// Already inside a mounted root: visible in the container right now.
    AlreadyMounted { root: PathBuf },
    /// Recorded in the manifest, but invisible until the container is recreated.
    NeedsRestart,
}

/// One project's session.
#[derive(Debug)]
pub struct Session {
    pub assistant: Assistant,
    pub manifest: Manifest,
    pub project_dir: PathBuf,
    pub resolver: PathResolver,
}

// ---------------------------------------------------------------------------
// What a session is
// ---------------------------------------------------------------------------

/// Entries for roots, in order, after others.
pub open spec fn with_roots(resolver: &PathResolver, roots: Seq<Seq<char>>) -> Seq<EntryView>
    decreases roots.len(),
{
    if roots.len() == 0 {
        seq![]
    } else {
        workspace::pushed(
            with_roots(resolver, roots.drop_last()),
            resolver.leads_to(roots.last()),
            None,
            Origin::Root,
            false,
        )
    }
}

/// Entries for `[[paths]]`, in order, after others.
pub open spec fn with_paths(
    resolver: &PathResolver,
    entries: Seq<EntryView>,
    listed: Seq<PathEntryView>,
) -> Seq<EntryView>
    decreases listed.len(),
{
    if listed.len() == 0 {
        entries
    } else {
        let entry = listed.last();
        workspace::pushed(
            with_paths(resolver, entries, listed.drop_last()),
            resolver.leads_to(entry.source),
            entry.target,
            if entry.local {
                Origin::Local
            } else {
                Origin::Explicit
            },
            entry.readonly,
        )
    }
}

/// The mount that an entry of the workspace is.
pub open spec fn mount_of(entry: EntryView) -> MountView {
    MountView { readonly: entry.readonly, source: entry.host, target: entry.guest }
}

/// The relay that carries a port's socket into the guest.
pub open spec fn relay_of(directory: Seq<char>, port: u16) -> SocketRelayView {
    SocketRelayView {
        source: paths::joined(directory, ports::socket_name(port)),
        target: paths::joined("/run/compostbin/ports"@, ports::socket_name(port)),
    }
}

/// Variables passed through from the host.
pub open spec fn inherited(names: Seq<Seq<char>>) -> Seq<EnvVarView> {
    names.map_values(|name: Seq<char>| EnvVarView::Inherit(name))
}

/// Numbers in decimal.
pub open spec fn decimals(numbers: Seq<u16>) -> Seq<Seq<char>> {
    numbers.map_values(|n: u16| text::decimal(n as nat))
}

impl Session {
    /// What the project is called: what the manifest says, or what its directory
    /// is called, or nothing.
    pub open spec fn project(&self) -> Seq<char> {
        match self.manifest.project.name {
            Some(name) => name@,
            None => match paths::file_name(self.project_dir@) {
                Some(name) => name,
                None => Seq::empty(),
            },
        }
    }

    /// What the container is called.
    pub open spec fn container(&self) -> Seq<char> {
        "compostbin-"@ + self.project()
    }

    /// Where the session keeps its state on the host.
    pub open spec fn state(&self) -> Seq<char> {
        paths::joined(
            self.resolver.leads_to("~/.local/state/compostbin/sessions"@),
            self.container(),
        )
    }

    /// Where the session keeps something of that name.
    pub open spec fn kept(&self, name: Seq<char>) -> Seq<char> {
        paths::joined(self.state(), name)
    }

    /// The assistant's home on the host.
    pub open spec fn home(&self) -> Seq<char> {
        match self.manifest.claude.home {
            Some(home) => self.resolver.leads_to(home@),
            None => self.kept(assistant::kept_home(self.assistant@)),
        }
    }

    /// Where the manifest's roots lead.
    pub open spec fn roots(&self) -> Seq<Seq<char>> {
        text::views(self.manifest.workspace.roots@).map_values(
            |root: Seq<char>| self.resolver.leads_to(root),
        )
    }

    /// The entries of the workspace: the roots, the project directory where no
    /// root covers it, then the `[[paths]]`.
    pub open spec fn exposed(&self) -> Seq<EntryView> {
        let rooted = with_roots(&self.resolver, text::views(self.manifest.workspace.roots@));
        let entries = match paths::root_of(self.project_dir@, self.roots()) {
            Some(_) => rooted,
            None => workspace::pushed(rooted, self.project_dir@, None, Origin::Project, false),
        };
        with_paths(&self.resolver, entries, text::views(self.manifest.paths@))
    }

    /// The mount of the spool, where the guest may ask for commands.
    pub open spec fn spool_mount(&self) -> Seq<MountView> {
        if self.manifest.host.serves_commands() {
            seq![
                MountView {
                    readonly: false,
                    source: self.kept("host"@),
                    target: "/run/compostbin/host"@,
                },
            ]
        } else {
            seq![]
        }
    }

    /// Every mount of the container, in order.
    pub open spec fn mounted(&self) -> Seq<MountView> {
        self.exposed().map_values(|entry: EntryView| mount_of(entry)) + self.spool_mount() + seq![
            MountView {
                readonly: true,
                source: self.kept("managed"@),
                target: assistant::settings_dir(self.assistant@),
            },
            MountView {
                readonly: false,
                source: self.home(),
                target: assistant::guest_home(self.assistant@),
            },
        ]
    }

    /// The socket of every declared port.
    pub open spec fn relayed(&self) -> Seq<SocketRelayView> {
        self.manifest.host.ports@.map_values(|port: u16| relay_of(self.kept("ports"@), port))
    }

    /// Where the session lands inside the container.
    pub open spec fn landing(&self) -> Seq<char> {
        match workspace::guest_path_of(self.exposed(), self.project_dir@) {
            Some(guest) => guest,
            None => "/workspace"@,
        }
    }

    /// The image the session runs.
    pub open spec fn image_name(&self) -> Seq<char> {
        if self.manifest.image.adds_nothing() {
            self.manifest.project.image@
        } else {
            "compostbin/"@ + self.container() + ":latest"@
        }
    }

    /// The container's own process.
    pub open spec fn first_process(&self) -> Seq<Seq<char>> {
        if self.manifest.host.ports@.len() == 0 {
            seq!["sleep"@, "infinity"@]
        } else {
            seq!["compostbin-ports"@] + decimals(self.manifest.host.ports@)
        }
    }

    /// The variables of a process that is attached to the container.
    pub open spec fn attached_env(&self) -> Seq<EnvVarView> {
        let set = inherited(text::views(self.manifest.container.env@)) + seq![
            EnvVarView::Assign {
                name: assistant::home_variable(self.assistant@),
                value: assistant::guest_home(self.assistant@),
            },
            EnvVarView::Assign { name: "IS_SANDBOX"@, value: "1"@ },
        ];
        if self.manifest.host.clipboard {
            set.push(
                EnvVarView::Assign {
                    name: "WAYLAND_DISPLAY"@,
                    value: "compostbin-clipboard"@,
                },
            )
        } else {
            set
        }
    }

    /// The container to create.
    pub open spec fn to_run(&self) -> RunSpecView {
        RunSpecView {
            arguments: self.first_process(),
            env: inherited(text::views(self.manifest.container.env@)),
            image: self.image_name(),
            mounts: self.mounted(),
            name: self.container(),
            resources: Resources {
                cpus: self.manifest.container.cpus,
                memory_in_bytes: self.manifest.container.memory.size,
            },
            sockets: self.relayed(),
            workdir: Some(self.landing()),
        }
    }

    /// A process to attach.
    pub open spec fn to_exec(&self, arguments: Seq<Seq<char>>) -> ExecSpecView {
        ExecSpecView {
            arguments,
            env: self.attached_env(),
            interactive: true,
            name: self.container(),
            tty: true,
            user: None,
            workdir: Some(self.landing()),
        }
    }
}

// ---------------------------------------------------------------------------
// Sessions
// ---------------------------------------------------------------------------

impl Session {
    pub fn new(
        assistant: Assistant,
        manifest: Manifest,
        resolver: PathResolver,
        project_dir: PathBuf,
    ) -> (r: Self)
        ensures
            r.assistant == assistant,
            r.manifest == manifest,
            r.resolver == resolver,
            r.project_dir == project_dir,
    {
        Session { assistant, manifest, project_dir, resolver }
    }

    /// Records a path in the manifest unless a mounted root already covers it.
    /// `path` must be canonical: a symlink out of a root looks contained and is
    /// not. `local` records it in the uncommitted manifest instead of the one the
    /// project shares.
    pub fn add(&mut self, path: PathBuf, readonly: bool, local: bool) -> (r: AddOutcome)
        ensures
            final(self).assistant == old(self).assistant,
            final(self).project_dir == old(self).project_dir,
            final(self).resolver == old(self).resolver,
            match paths::root_of(path@, old(self).roots()) {
                Some(found) => r matches AddOutcome::AlreadyMounted { root } && root@ == found
                    && final(self).manifest == old(self).manifest,
                None => {
                    &&& r == AddOutcome::NeedsRestart
                    &&& text::views(final(self).manifest.paths@) == text::views(
                        old(self).manifest.paths@,
                    ).push(PathEntryView { local, readonly, source: path@, target: None })
                    &&& final(self).manifest.claude == old(self).manifest.claude
                    &&& final(self).manifest.container == old(self).manifest.container
                    &&& final(self).manifest.host == old(self).manifest.host
                    &&& final(self).manifest.image == old(self).manifest.image
                    &&& final(self).manifest.project == old(self).manifest.project
                    &&& final(self).manifest.workspace == old(self).manifest.workspace
                },
            },
    {
        let roots = self.resolved_roots();
        if let Some(root) = paths::root_containing(&path, roots.as_slice()) {
            return AddOutcome::AlreadyMounted { root: root.clone() };
        }
        let entry = PathEntry { local, readonly, source: path.display(), target: None };
        proof {
            text::lemma_views_push(self.manifest.paths@, entry);
        }
        self.manifest.paths.push(entry);
        AddOutcome::NeedsRestart
    }

    /// Resolves a manifest path string against this session's cwd and home.
    pub fn resolve(&self, raw: &str) -> (r: PathBuf)
        ensures
            r@ == self.resolver.leads_to(raw@),
    {
        self.resolver.resolve(raw)
    }

    pub fn resolver(&self) -> (r: &PathResolver)
        ensures
            *r == self.resolver,
    {
        &self.resolver
    }

    /// The source side of the bind mount, and so where credentials are seeded
    /// before the container starts.
    ///
    /// Per session unless the manifest overrides it: one shared home would make
    /// `--continue` resume whichever project ran last, and expose one project's
    /// history to another's container.
    pub fn claude_home(&self) -> (r: PathBuf)
        ensures
            r@ == self.home(),
    {
        match &self.manifest.claude.home {
            Some(home) => self.resolver.resolve(home.as_str()),
            None => self.state_dir().join(self.assistant.kept_home().as_str()),
        }
    }

    /// Everything this session keeps on the host, under its own container name.
    pub fn state_dir(&self) -> (r: PathBuf)
        ensures
            r@ == self.state(),
    {
        self.resolver.resolve(SESSIONS_DIR).join(self.container_name().as_str())
    }

    pub fn container_name(&self) -> (r: String)
        ensures
            r@ == self.container(),
    {
        let mut out = NAME_PREFIX.to_string();
        match &self.manifest.project.name {
            Some(name) => out.append(name.as_str()),
            None => {
                if let Some(name) = self.project_dir.file_name() {
                    out.append(name.as_str());
                } else {
                    assert(out@ + Seq::<char>::empty() =~= out@);
                }
            },
        }
        out
    }

    /// The host paths this session exposes, in declaration order: roots, the
    /// project directory when no root covers it, then explicit `[[paths]]`. Order
    /// matters: a name goes to the first entry that claims it.
    pub fn workspace(&self) -> (r: Workspace)
        ensures
            r@ == self.exposed(),
    {
        let mut out = Workspace::new();
        let ghost raw = text::views(self.manifest.workspace.roots@);
        let mut i: usize = 0;
        assert(out@ =~= with_roots(&self.resolver, raw.take(0)));
        while i < self.manifest.workspace.roots.len()
            invariant
                i <= self.manifest.workspace.roots@.len(),
                raw == text::views(self.manifest.workspace.roots@),
                out@ == with_roots(&self.resolver, raw.take(i as int)),
            decreases self.manifest.workspace.roots.len() - i,
        {
            let root = &self.manifest.workspace.roots[i];
            assert(raw.take(i + 1).drop_last() =~= raw.take(i as int));
            assert(raw.take(i + 1).last() == root@);
            out.push(self.resolver.resolve(root.as_str()), None, Origin::Root, false);
            i = i + 1;
        }
        assert(raw.take(i as int) =~= raw);
        let roots = self.resolved_roots();
        if paths::root_containing(&self.project_dir, roots.as_slice()).is_none() {
            out.push(self.project_dir.clone(), None, Origin::Project, false);
        }
        let ghost entries = out@;
        let ghost listed = text::views(self.manifest.paths@);
        let mut k: usize = 0;
        assert(listed.take(0) =~= seq![]);
        while k < self.manifest.paths.len()
            invariant
                k <= self.manifest.paths@.len(),
                listed == text::views(self.manifest.paths@),
                out@ == with_paths(&self.resolver, entries, listed.take(k as int)),
            decreases self.manifest.paths.len() - k,
        {
            let entry = &self.manifest.paths[k];
            assert(listed.take(k + 1).drop_last() =~= listed.take(k as int));
            assert(listed.take(k + 1).last() == entry@);
            let target = match &entry.target {
                Some(target) => Some(PathBuf { text: target.clone() }),
                None => None,
            };
            let origin = if entry.local {
                Origin::Local
            } else {
                Origin::Explicit
            };
            out.push(self.resolver.resolve(entry.source.as_str()), target, origin, entry.readonly);
            k = k + 1;
        }
        assert(listed.take(k as int) =~= listed);
        out
    }

    /// Every workspace entry, then the spool, then the assistant's home. Order is
    /// preserved so a nested mount declared later lands on top of its parent.
    pub fn mounts(&self) -> (r: Vec<Mount>)
        ensures
            text::views(r@) == self.mounted(),
    {
        let workspace = self.workspace();
        let ghost entries = workspace@;
        let mut out: Vec<Mount> = Vec::new();
        let mut i: usize = 0;
        while i < workspace.entries.len()
            invariant
                i <= workspace.entries@.len(),
                entries == workspace@,
                out@.len() == i,
                forall|j: int| 0 <= j < i ==> (#[trigger] out@[j])@ == mount_of(entries[j]),
            decreases workspace.entries.len() - i,
        {
            let entry = &workspace.entries[i];
            assert(entries[i as int] == entry@);
            out.push(
                Mount {
                    readonly: entry.readonly,
                    source: entry.host.clone(),
                    target: entry.guest.clone(),
                },
            );
            i = i + 1;
        }
        let ghost first = entries.map_values(|entry: EntryView| mount_of(entry));
        assert(text::views(out@) =~= first);
        if self.manifest.host.has_commands() {
            let mount = Mount {
                readonly: false,
                source: self.host_spool(),
                target: PathBuf::from(host::GUEST_SPOOL_TARGET),
            };
            proof {
                text::lemma_views_push(out@, mount);
            }
            out.push(mount);
        }
        assert(text::views(out@) =~= first + self.spool_mount());
        // Unconditional, unlike the spool: a session with no host commands still
        // needs to know it is in a container. Read-only, because the guest changing
        // what it is told is the whole point of managed settings.
        let managed = Mount {
            readonly: true,
            source: self.managed_settings(),
            target: PathBuf::from(self.assistant.settings_dir()),
        };
        let home = Mount {
            readonly: false,
            source: self.claude_home(),
            target: PathBuf::from(self.assistant.guest_home()),
        };
        proof {
            text::lemma_views_push(out@, managed);
            text::lemma_views_push(out@.push(managed), home);
        }
        out.push(managed);
        out.push(home);
        assert(text::views(out@) =~= self.mounted());
        out
    }

    /// One socket per declared port, relayed into the guest rather than mounted,
    /// and named after the port so the guest's relay finds it unprompted.
    ///
    /// Each must be a live socket when the container is created, which is why
    /// `run` binds them first.
    pub fn sockets(&self) -> (r: Vec<SocketRelay>)
        ensures
            text::views(r@) == self.relayed(),
    {
        let forwards = self.forwards();
        let mut out: Vec<SocketRelay> = Vec::new();
        let mut i: usize = 0;
        while i < forwards.len()
            invariant
                i <= forwards@.len(),
                forwards@.len() == self.manifest.host.ports@.len(),
                forall|j: int|
                    0 <= j < forwards@.len() ==> (#[trigger] forwards@[j])@ == ports::loopback(
                        self.kept("ports"@),
                        self.manifest.host.ports@[j],
                    ),
                out@.len() == i,
                forall|j: int|
                    0 <= j < i ==> (#[trigger] out@[j])@ == relay_of(
                        self.kept("ports"@),
                        self.manifest.host.ports@[j],
                    ),
            decreases forwards.len() - i,
        {
            let forward = &forwards[i];
            let ghost port = self.manifest.host.ports@[i as int];
            assert(forwards@[i as int]@ == ports::loopback(self.kept("ports"@), port));
            proof {
                self.lemma_socket_file_name(port);
            }
            let name = match forward.listen.file_name() {
                Some(name) => name,
                None => String::new(),
            };
            out.push(
                SocketRelay {
                    source: forward.listen.clone(),
                    target: PathBuf::from(host::GUEST_PORTS_TARGET).join(name.as_str()),
                },
            );
            i = i + 1;
        }
        assert(text::views(out@) =~= self.relayed());
        out
    }

    /// Where the session lands inside the container. The `/workspace` fallback
    /// keeps a misconfigured manifest from starting in an unmounted directory.
    pub fn workdir(&self) -> (r: PathBuf)
        ensures
            r@ == self.landing(),
    {
        match self.workspace().guest_path(&self.project_dir) {
            Some(guest) => guest,
            None => PathBuf::from(workspace::WORKSPACE_TARGET),
        }
    }

    /// Inside the session directory, so concurrent projects cannot see each
    /// other's requests and `clean` takes it with the rest.
    pub fn host_spool(&self) -> (r: PathBuf)
        ensures
            r@ == self.kept("host"@),
    {
        self.state_dir().join(SPOOL_DIR)
    }

    /// The spool at `host_spool`, or `None` with no commands declared: with no
    /// allowlist there is no channel at all, rather than an empty one.
    pub fn spool(&self) -> (r: Option<Spool>)
        ensures
            match r {
                Some(spool) => self.manifest.host.serves_commands() && spool.root@ == self.kept(
                    "host"@,
                ),
                None => !self.manifest.host.serves_commands(),
            },
    {
        if self.manifest.host.has_commands() {
            Some(Spool::new(self.host_spool()))
        } else {
            None
        }
    }

    /// The directories to create before the container starts: the mount source
    /// must exist by then, and the guest cannot create it. None with no commands
    /// declared.
    pub fn prepare_host_spool(&self) -> (r: Vec<PathBuf>)
        ensures
            text::views(r@) == (if self.manifest.host.serves_commands() {
                seq![
                    paths::joined(self.kept("host"@), "requests"@),
                    paths::joined(self.kept("host"@), "running"@),
                    paths::joined(self.kept("host"@), "responses"@),
                ]
            } else {
                Seq::empty()
            }),
    {
        match self.spool() {
            Some(spool) => spool.directories(),
            None => {
                let out: Vec<PathBuf> = Vec::new();
                assert(text::views(out@) =~= Seq::empty());
                out
            },
        }
    }

    /// Where this session's port sockets are bound. Inside the session directory
    /// because the directory is what confines them: socket mode cannot (the guest
    /// end is root-owned, the session is not).
    pub fn port_sockets(&self) -> (r: PathBuf)
        ensures
            r@ == self.kept("ports"@),
    {
        self.state_dir().join(PORTS_DIR)
    }

    /// Where the relay writes once the assistant is attached.
    ///
    /// A file, because by then the terminal is the assistant's: the relay runs on a
    /// thread of `run`, and anything it printed would land mid-draw. A host
    /// service not yet started is ordinary (`[host.commands]` may start it), so a
    /// refused connection must not look like a fault.
    pub fn ports_log(&self) -> (r: PathBuf)
        ensures
            r@ == self.kept("ports.log"@),
    {
        self.state_dir().join(PORTS_LOG)
    }

    /// The source side of the managed settings mount: what this session tells its
    /// assistant about itself. Per session, because it is rendered from this
    /// project's manifest.
    pub fn managed_settings(&self) -> (r: PathBuf)
        ensures
            r@ == self.kept("managed"@),
    {
        self.state_dir().join(MANAGED_SETTINGS_DIR)
    }

    /// Where the container's creation-time mounts are recorded, so `doctor` can
    /// tell a manifest edited mid-session from one that took effect.
    pub fn mount_record(&self) -> (r: PathBuf)
        ensures
            r@ == self.kept("mounts.toml"@),
    {
        self.state_dir().join(RECORD_FILE)
    }

    /// A derived image when the manifest adds packages or build steps, otherwise
    /// the shared base itself.
    pub fn image(&self) -> (r: String)
        ensures
            r@ == self.image_name(),
    {
        if self.manifest.image.is_empty() {
            self.manifest.project.image.clone()
        } else {
            let mut out = "compostbin/".to_string();
            out.append(self.container_name().as_str());
            out.append(":latest");
            out
        }
    }

    /// Each declared port, as a socket in this session's directory relayed to the
    /// host's loopback.
    pub fn forwards(&self) -> (r: Vec<Forward>)
        ensures
            r@.len() == self.manifest.host.ports@.len(),
            forall|i: int|
                0 <= i < r@.len() ==> (#[trigger] r@[i])@ == ports::loopback(
                    self.kept("ports"@),
                    self.manifest.host.ports@[i],
                ),
    {
        let directory = self.port_sockets();
        let mut out: Vec<Forward> = Vec::new();
        let mut i: usize = 0;
        while i < self.manifest.host.ports.len()
            invariant
                i <= self.manifest.host.ports@.len(),
                directory@ == self.kept("ports"@),
                out@.len() == i,
                forall|j: int|
                    0 <= j < i ==> (#[trigger] out@[j])@ == ports::loopback(
                        self.kept("ports"@),
                        self.manifest.host.ports@[j],
                    ),
            decreases self.manifest.host.ports.len() - i,
        {
            out.push(Forward::to_loopback(&directory, self.manifest.host.ports[i]));
            i = i + 1;
        }
        out
    }

    /// The container's own process: the port relay when ports are declared (which
    /// fixes them at creation, like the mounts), and otherwise only something to
    /// keep it alive for `exec`.
    pub fn process(&self) -> (r: Vec<String>)
        ensures
            text::views(r@) == self.first_process(),
    {
        let mut out: Vec<String> = Vec::new();
        if !self.manifest.host.has_ports() {
            out.push(KEEPALIVE_COMMAND[0].to_string());
            out.push(KEEPALIVE_COMMAND[1].to_string());
            assert(text::views(out@) =~= self.first_process());
            return out;
        }
        out.push(GUEST_PORTS_NAME.to_string());
        let mut i: usize = 0;
        assert(text::views(out@) =~= seq!["compostbin-ports"@] + decimals(
            self.manifest.host.ports@.take(0),
        ));
        while i < self.manifest.host.ports.len()
            invariant
                i <= self.manifest.host.ports@.len(),
                text::views(out@) == seq!["compostbin-ports"@] + decimals(
                    self.manifest.host.ports@.take(i as int),
                ),
            decreases self.manifest.host.ports.len() - i,
        {
            let port = text::decimal_text(self.manifest.host.ports[i] as u128);
            proof {
                text::lemma_views_push(out@, port);
            }
            out.push(port);
            assert(text::views(out@) =~= seq!["compostbin-ports"@] + decimals(
                self.manifest.host.ports@.take(i + 1),
            ));
            i = i + 1;
        }
        assert(self.manifest.host.ports@.take(i as int) =~= self.manifest.host.ports@);
        out
    }

    /// `[container] env`, passed through from the host.
    pub fn inherited_env(&self) -> (r: Vec<EnvVar>)
        ensures
            text::views(r@) == inherited(text::views(self.manifest.container.env@)),
    {
        let mut out: Vec<EnvVar> = Vec::new();
        let mut i: usize = 0;
        while i < self.manifest.container.env.len()
            invariant
                i <= self.manifest.container.env@.len(),
                out@.len() == i,
                forall|j: int|
                    0 <= j < i ==> (#[trigger] out@[j])@ == EnvVarView::Inherit(
                        self.manifest.container.env@[j]@,
                    ),
            decreases self.manifest.container.env.len() - i,
        {
            out.push(EnvVar::Inherit(self.manifest.container.env[i].clone()));
            i = i + 1;
        }
        assert(text::views(out@) =~= inherited(text::views(self.manifest.container.env@)));
        out
    }

    pub fn run_spec(&self) -> (r: RunSpec)
        ensures
            r@ == self.to_run(),
    {
        RunSpec {
            arguments: self.process(),
            env: self.inherited_env(),
            image: self.image(),
            mounts: self.mounts(),
            name: self.container_name(),
            resources: Resources {
                cpus: self.manifest.container.cpus,
                memory_in_bytes: self.manifest.container.memory.bytes(),
            },
            sockets: self.sockets(),
            workdir: Some(self.workdir()),
        }
    }

    /// An exec doesn't inherit the boot environment, so `[container] env` is
    /// repeated here, first, so the variables below override it.
    ///
    /// `IS_SANDBOX=1` tells the assistant it is already sandboxed.
    ///
    /// The variable that names the assistant's home moves the account, the
    /// onboarding answers and the per-project trust into the bind-mounted home. They
    /// default to a file beside it, outside the mount, so without this every new
    /// container starts logged out however faithfully the home is preserved.
    ///
    /// `WAYLAND_DISPLAY`, with `[host] clipboard`, is what makes the assistant copy at
    /// all: on Linux it looks for `wl-copy` only when there is a display to copy
    /// to. There is none, but the guest's `wl-copy` sends to the host's.
    pub fn exec_spec(&self, arguments: &Vec<String>) -> (r: ExecSpec)
        ensures
            r@ == self.to_exec(text::views(arguments@)),
    {
        let mut env = self.inherited_env();
        let ghost before = text::views(env@);
        let config = EnvVar::Assign {
            name: self.assistant.home_variable(),
            value: self.assistant.guest_home(),
        };
        let sandbox = EnvVar::Assign { name: "IS_SANDBOX".to_string(), value: "1".to_string() };
        proof {
            text::lemma_views_push(env@, config);
            text::lemma_views_push(env@.push(config), sandbox);
        }
        env.push(config);
        env.push(sandbox);
        if self.manifest.host.clipboard {
            let display = EnvVar::Assign {
                name: "WAYLAND_DISPLAY".to_string(),
                value: CLIPBOARD_DISPLAY.to_string(),
            };
            proof {
                text::lemma_views_push(env@, display);
            }
            env.push(display);
        }
        assert(text::views(env@) =~= self.attached_env());
        let given = arguments.clone();
        assert(given@ =~= arguments@);
        ExecSpec {
            arguments: given,
            env,
            interactive: true,
            name: self.container_name(),
            tty: true,
            user: None,
            workdir: Some(self.workdir()),
        }
    }

    pub fn resolved_roots(&self) -> (r: Vec<PathBuf>)
        ensures
            text::views(r@) == self.roots(),
    {
        let mut out: Vec<PathBuf> = Vec::new();
        let mut i: usize = 0;
        while i < self.manifest.workspace.roots.len()
            invariant
                i <= self.manifest.workspace.roots@.len(),
                out@.len() == i,
                forall|j: int|
                    0 <= j < i ==> (#[trigger] out@[j])@ == self.resolver.leads_to(
                        self.manifest.workspace.roots@[j]@,
                    ),
            decreases self.manifest.workspace.roots.len() - i,
        {
            out.push(self.resolver.resolve(self.manifest.workspace.roots[i].as_str()));
            i = i + 1;
        }
        assert(text::views(out@) =~= self.roots());
        out
    }

    /// A port's socket ends in its name.
    proof fn lemma_socket_file_name(&self, port: u16)
        ensures
            paths::file_name(paths::joined(self.kept("ports"@), ports::socket_name(port))) == Some(
                ports::socket_name(port),
            ),
    {
        let directory = self.kept("ports"@);
        let name = ports::socket_name(port);
        ports::lemma_socket_name(port);
        reveal_strlit("ports");
        assert(!paths::is_rooted("ports"@));
        assert(directory.len() > 0);
        paths::lemma_joined_name(directory, name);
    }
}

// ---------------------------------------------------------------------------
// Laws
// ---------------------------------------------------------------------------

/// A project that serves no commands has no channel to the host: nothing is
/// prepared for one, and nothing is mounted for one. The mounts are those of the
/// workspace, the managed settings and the assistant's home.
pub proof fn law_no_commands_no_channel(session: &Session)
    requires
        !session.manifest.host.serves_commands(),
    ensures
        session.spool_mount().len() == 0,
        session.mounted().len() == session.exposed().len() + 2,
        forall|i: int|
            0 <= i < session.exposed().len() ==> #[trigger] session.mounted()[i] == mount_of(
                session.exposed()[i],
            ),
{
}

/// Two projects of different names keep their state apart: neither directory is
/// the other, or lies in it, so neither container sees the other's conversation,
/// requests or sockets.
pub proof fn law_projects_keep_their_state_apart(a: &Session, b: &Session)
    requires
        a.resolver.home@ == b.resolver.home@,
        a.project() != b.project(),
        !a.project().contains('/'),
        !b.project().contains('/'),
    ensures
        !paths::within(a.state(), b.state()),
        !paths::within(b.state(), a.state()),
{
    reveal_strlit("compostbin-");
    let x = a.container();
    let y = b.container();
    assert(!x.contains('/')) by {
        assert forall|i: int| 0 <= i < x.len() implies x[i] != '/' by {
            if i >= 11 {
                assert(x[i] == a.project()[i - 11]);
            }
        }
    }
    assert(!y.contains('/')) by {
        assert forall|i: int| 0 <= i < y.len() implies y[i] != '/' by {
            if i >= 11 {
                assert(y[i] == b.project()[i - 11]);
            }
        }
    }
    if x == y {
        assert(a.project() =~= x.skip(11));
        assert(b.project() =~= y.skip(11));
    }
    let sessions = a.resolver.leads_to("~/.local/state/compostbin/sessions"@);
    reveal_strlit("~/.local/state/compostbin/sessions");
    assert(x.len() >= 11 && y.len() >= 11);
    assert(seq!['.'].len() == 1);
    paths::lemma_joined_name(sessions, x);
    paths::lemma_joined_name(sessions, y);
    let stem = paths::components(sessions);
    assert(stem.push(x)[stem.len() as int] == x);
    assert(stem.push(y)[stem.len() as int] == y);
}

/// The entries for roots lead where the roots do, each below `/workspace`.
proof fn lemma_with_roots(resolver: &PathResolver, roots: Seq<Seq<char>>)
    ensures
        with_roots(resolver, roots).len() == roots.len(),
        forall|i: int|
            0 <= i < roots.len() ==> {
                let entry = #[trigger] with_roots(resolver, roots)[i];
                entry.host == resolver.leads_to(roots[i]) && is_derived(entry) && !entry.readonly
                    && entry.origin == Origin::Root
            },
    decreases roots.len(),
{
    if roots.len() > 0 {
        let rest = roots.drop_last();
        lemma_with_roots(resolver, rest);
        let before = with_roots(resolver, rest);
        workspace::law_derived_guest_paths_hide_the_host_layout(
            before,
            resolver.leads_to(roots.last()),
        );
        assert forall|i: int| 0 <= i < roots.len() implies (#[trigger] with_roots(
            resolver,
            roots,
        )[i]).host == resolver.leads_to(roots[i]) && is_derived(with_roots(resolver, roots)[i])
            && !with_roots(resolver, roots)[i].readonly && with_roots(resolver, roots)[i].origin
            == Origin::Root by {
            if i < rest.len() {
                assert(with_roots(resolver, roots)[i] == before[i]);
            }
        }
    }
}

/// Whether an entry of the workspace lands below `/workspace`.
spec fn is_derived(entry: EntryView) -> bool {
    paths::within(entry.guest, "/workspace"@) && entry.guest.len() > 0
}

/// The entries for `[[paths]]` come after the others.
proof fn lemma_with_paths(
    resolver: &PathResolver,
    entries: Seq<EntryView>,
    listed: Seq<PathEntryView>,
)
    ensures
        with_paths(resolver, entries, listed).len() == entries.len() + listed.len(),
        forall|i: int|
            0 <= i < entries.len() ==> (#[trigger] with_paths(resolver, entries, listed)[i])
                == entries[i],
        forall|i: int|
            0 <= i < listed.len() ==> {
                let entry = with_paths(resolver, entries, listed)[entries.len() + i];
                let declared = #[trigger] listed[i];
                &&& entry.host == resolver.leads_to(declared.source)
                &&& entry.readonly == declared.readonly
                &&& entry.origin == (if declared.local {
                    Origin::Local
                } else {
                    Origin::Explicit
                })
                &&& match declared.target {
                    Some(target) => entry.guest == target,
                    None => is_derived(entry),
                }
            },
    decreases listed.len(),
{
    if listed.len() > 0 {
        let rest = listed.drop_last();
        let before = with_paths(resolver, entries, rest);
        lemma_with_paths(resolver, entries, rest);
        workspace::law_derived_guest_paths_hide_the_host_layout(
            before,
            resolver.leads_to(listed.last().source),
        );
        let whole = with_paths(resolver, entries, listed);
        assert forall|i: int| 0 <= i < listed.len() implies ({
            let entry = whole[entries.len() + i];
            let declared = #[trigger] listed[i];
            &&& entry.host == resolver.leads_to(declared.source)
            &&& entry.readonly == declared.readonly
            &&& entry.origin == (if declared.local {
                Origin::Local
            } else {
                Origin::Explicit
            })
            &&& match declared.target {
                Some(target) => entry.guest == target,
                None => is_derived(entry),
            }
        }) by {
            if i < rest.len() {
                assert(rest[i] == listed[i]);
                assert(whole[entries.len() + i] == before[entries.len() + i]);
            }
        }
    }
}

/// The entry that the project directory is found in: a root that covers it, or its
/// own where none does. Both come before any path that was given a place of its
/// own.
proof fn lemma_landing(session: &Session) -> (i: int)
    ensures
        0 <= i < session.exposed().len(),
        paths::within(session.project_dir@, session.exposed()[i].host),
        session.landing() == workspace::translated(session.exposed()[i], session.project_dir@),
        is_derived(session.exposed()[i]),
        session.exposed()[i].host == session.project_dir@ || paths::root_of(
            session.project_dir@,
            session.roots(),
        ) == Some(session.exposed()[i].host),
{
    let resolver = &session.resolver;
    let project = session.project_dir@;
    let roots = session.roots();
    let written = text::views(session.manifest.workspace.roots@);
    let rooted = with_roots(resolver, written);
    let first = match paths::root_of(project, roots) {
        Some(_) => rooted,
        None => workspace::pushed(rooted, project, None, Origin::Project, false),
    };
    lemma_with_roots(resolver, written);
    lemma_with_paths(resolver, first, text::views(session.manifest.paths@));
    paths::lemma_root_of(project, roots);
    workspace::law_derived_guest_paths_hide_the_host_layout(rooted, project);
    let entries = session.exposed();
    assert(exists|k: int|
        0 <= k < first.len() && #[trigger] paths::within(project, first[k].host)) by {
        match paths::root_of(project, roots) {
            Some(root) => {
                let k = choose|k: int| 0 <= k < roots.len() && roots[k] == root;
                assert(rooted[k].host == resolver.leads_to(written[k]));
                assert(paths::within(project, first[k].host));
            },
            None => {
                let k = first.len() - 1;
                assert(first[k].host == project);
                assert(paths::within(project, first[k].host));
            },
        }
    }
    let k = choose|k: int| 0 <= k < first.len() && #[trigger] paths::within(project, first[k].host);
    assert(entries[k] == first[k]);
    workspace::lemma_first_within_is_first(entries, project);
    let i = workspace::first_within(entries, project)->0;
    assert(i <= k);
    assert(entries[i] == first[i]);
    if i < rooted.len() {
        assert(entries[i] == rooted[i]);
        assert(roots[i] == rooted[i].host);
        assert forall|j: int| 0 <= j < i implies !paths::within(project, #[trigger] roots[j]) by {
            assert(entries[j] == first[j] && first[j] == rooted[j]);
            assert(roots[j] == rooted[j].host);
        }
        paths::lemma_root_of_first(project, roots, i);
    }
    i
}

/// A session always starts in a mounted directory: at the place of the project
/// directory in an entry of the workspace that covers it.
pub proof fn law_a_session_starts_in_a_mounted_directory(session: &Session)
    ensures
        exists|i: int|
            0 <= i < session.exposed().len() && paths::within(
                session.project_dir@,
                (#[trigger] session.exposed()[i]).host,
            ) && session.landing() == workspace::translated(
                session.exposed()[i],
                session.project_dir@,
            ),
{
    let _i: int = lemma_landing(session);
}

/// A session starts below `/workspace`, whatever else is mounted and wherever that
/// lands. The one exception is an absolute project directory outside of
/// `/workspace` in a root that is the empty path, as no root is where the working
/// directory and the home directory are something.
pub proof fn law_a_session_starts_below_workspace(session: &Session)
    requires
        paths::root_of(session.project_dir@, session.roots()) == Some(Seq::<char>::empty())
            && paths::is_rooted(session.project_dir@) ==> paths::within(
            session.project_dir@,
            "/workspace"@,
        ),
    ensures
        paths::within(session.landing(), "/workspace"@),
{
    let project = session.project_dir@;
    let i = lemma_landing(session);
    let entry = session.exposed()[i];
    if entry.host.len() > 0 {
        workspace::law_translation_keeps_the_place(entry, project);
        paths::lemma_within(session.landing(), entry.guest, "/workspace"@);
    } else {
        assert(entry.host =~= Seq::<char>::empty());
        let rest = paths::remainder(project, 0);
        paths::lemma_components_nonempty(entry.host);
        paths::lemma_whole(project);
        assert(session.landing() == paths::joined(entry.guest, rest));
        if !paths::is_rooted(project) {
            paths::lemma_joined_within(entry.guest, rest);
            paths::lemma_within(session.landing(), entry.guest, "/workspace"@);
        }
    }
}

/// Where the working directory and the home directory are something, a session
/// starts below `/workspace` from any project directory.
pub proof fn law_a_located_session_starts_below_workspace(session: &Session)
    requires
        session.resolver.cwd@.len() > 0,
        session.resolver.home@.len() > 0,
    ensures
        paths::within(session.landing(), "/workspace"@),
{
    let roots = session.roots();
    paths::lemma_root_of(session.project_dir@, roots);
    if let Some(root) = paths::root_of(session.project_dir@, roots) {
        let k = choose|k: int| 0 <= k < roots.len() && roots[k] == root;
        paths::law_resolved_paths_are_not_empty(
            text::views(session.manifest.workspace.roots@)[k],
            session.resolver.cwd@,
            session.resolver.home@,
        );
    }
    law_a_session_starts_below_workspace(session);
}

/// How many entries come before the `[[paths]]`: one for each root, and one for the
/// project directory where no root covers it.
pub open spec fn places_before_paths(session: &Session) -> int {
    session.manifest.workspace.roots@.len() + (if exists|i: int|
        0 <= i < session.manifest.workspace.roots@.len() && paths::within(
            session.project_dir@,
            session.resolver.leads_to((#[trigger] session.manifest.workspace.roots@[i])@),
        ) {
        0int
    } else {
        1int
    })
}

/// What the entries of the workspace are, one by one.
proof fn lemma_exposed(session: &Session)
    ensures
        session.exposed().len() == places_before_paths(session)
            + session.manifest.paths@.len(),
        forall|i: int|
            0 <= i < session.manifest.workspace.roots@.len() ==> {
                let entry = session.exposed()[i];
                &&& entry.host == session.resolver.leads_to(
                    (#[trigger] session.manifest.workspace.roots@[i])@,
                )
                &&& !entry.readonly
                &&& entry.origin == Origin::Root
                &&& is_derived(entry)
            },
        places_before_paths(session) > session.manifest.workspace.roots@.len() ==> ({
            let entry = session.exposed()[session.manifest.workspace.roots@.len() as int];
            &&& entry.host == session.project_dir@
            &&& !entry.readonly
            &&& entry.origin == Origin::Project
            &&& is_derived(entry)
        }),
        forall|i: int|
            0 <= i < session.manifest.paths@.len() ==> {
                let entry = session.exposed()[places_before_paths(session) + i];
                let declared = #[trigger] session.manifest.paths@[i];
                &&& entry.host == session.resolver.leads_to(declared.source@)
                &&& entry.readonly == declared.readonly
                &&& entry.origin == (if declared.local {
                    Origin::Local
                } else {
                    Origin::Explicit
                })
                &&& match declared.target {
                    Some(target) => entry.guest == target@,
                    None => is_derived(entry),
                }
            },
{
    let resolver = &session.resolver;
    let project = session.project_dir@;
    let roots = session.roots();
    let written = text::views(session.manifest.workspace.roots@);
    let listed = text::views(session.manifest.paths@);
    let rooted = with_roots(resolver, written);
    let first = match paths::root_of(project, roots) {
        Some(_) => rooted,
        None => workspace::pushed(rooted, project, None, Origin::Project, false),
    };
    lemma_with_roots(resolver, written);
    lemma_with_paths(resolver, first, listed);
    paths::lemma_root_of(project, roots);
    workspace::law_derived_guest_paths_hide_the_host_layout(rooted, project);
    assert forall|i: int| 0 <= i < written.len() implies roots[i] == resolver.leads_to(
        (#[trigger] session.manifest.workspace.roots@[i])@,
    ) by {
        assert(written[i] == session.manifest.workspace.roots@[i]@);
    }
    match paths::root_of(project, roots) {
        Some(root) => {
            let k = choose|k: int| 0 <= k < roots.len() && roots[k] == root;
            assert(roots[k] == resolver.leads_to(session.manifest.workspace.roots@[k]@));
        },
        None => {
            assert forall|i: int| 0 <= i < written.len() implies !paths::within(
                project,
                resolver.leads_to((#[trigger] session.manifest.workspace.roots@[i])@),
            ) by {
                assert(!paths::within(project, roots[i]));
            }
        },
    }
    assert(first.len() == places_before_paths(session));
    assert forall|i: int| 0 <= i < written.len() implies ({
        let entry = session.exposed()[i];
        &&& entry.host == resolver.leads_to((#[trigger] session.manifest.workspace.roots@[i])@)
        &&& !entry.readonly
        &&& entry.origin == Origin::Root
        &&& is_derived(entry)
    }) by {
        assert(session.exposed()[i] == first[i] && first[i] == rooted[i]);
        assert(written[i] == session.manifest.workspace.roots@[i]@);
    }
    assert forall|i: int| 0 <= i < listed.len() implies (#[trigger] session.manifest.paths@[i])@
        == listed[i] by {}
    assert forall|i: int| 0 <= i < session.manifest.paths@.len() implies ({
        let entry = session.exposed()[places_before_paths(session) + i];
        let declared = #[trigger] session.manifest.paths@[i];
        &&& entry.host == resolver.leads_to(declared.source@)
        &&& entry.readonly == declared.readonly
        &&& entry.origin == (if declared.local {
            Origin::Local
        } else {
            Origin::Explicit
        })
        &&& match declared.target {
            Some(target) => entry.guest == target@,
            None => is_derived(entry),
        }
    }) by {
        assert(listed[i] == session.manifest.paths@[i]@);
    }
}

/// Every `[[paths]]` entry, committed or local, is mounted where it was declared to
/// land or below `/workspace`, from what it leads to, and read-only if and only if
/// it says so. `ls` tells the local ones from the others.
pub proof fn law_every_path_is_mounted_as_declared(session: &Session, i: int)
    requires
        0 <= i < session.manifest.paths@.len(),
    ensures
        ({
            let declared = session.manifest.paths@[i];
            let at = places_before_paths(session) + i;
            let mount = session.mounted()[at];
            &&& mount.source == session.resolver.leads_to(declared.source@)
            &&& mount.readonly == declared.readonly
            &&& match declared.target {
                Some(target) => mount.target == target@,
                None => paths::within(mount.target, "/workspace"@),
            }
            &&& session.exposed()[at].host == mount.source
            &&& session.exposed()[at].guest == mount.target
            &&& session.exposed()[at].readonly == declared.readonly
            &&& session.exposed()[at].origin == (if declared.local {
                Origin::Local
            } else {
                Origin::Explicit
            })
        }),
{
    lemma_exposed(session);
    let at = places_before_paths(session) + i;
    assert(session.manifest.paths@[i] == session.manifest.paths@[i]);
    assert(session.mounted()[at] == mount_of(session.exposed()[at]));
}

/// Every root is mounted below `/workspace`, in order, and the guest may write
/// there; so is the project directory, where no root covers it.
pub proof fn law_roots_and_the_project_are_mounted_to_write(session: &Session, i: int)
    requires
        0 <= i < places_before_paths(session),
    ensures
        ({
            let roots = session.manifest.workspace.roots@;
            let mount = session.mounted()[i];
            &&& mount.source == (if i < roots.len() {
                session.resolver.leads_to(roots[i]@)
            } else {
                session.project_dir@
            })
            &&& !mount.readonly
            &&& paths::within(mount.target, "/workspace"@)
            &&& session.exposed()[i].origin == (if i < roots.len() {
                Origin::Root
            } else {
                Origin::Project
            })
        }),
{
    lemma_exposed(session);
    let roots = session.manifest.workspace.roots@;
    if i < roots.len() {
        assert(roots[i] == roots[i]);
    }
    assert(session.mounted()[i] == mount_of(session.exposed()[i]));
}

/// Besides the workspace a container has the spool, where commands are served, which
/// the guest may write to; the managed settings, which it may only read; and the
/// assistant's home. It has nothing else.
pub proof fn law_besides_the_workspace_only_the_session_is_mounted(session: &Session)
    ensures
        ({
            let all = session.mounted();
            let entries = places_before_paths(session) + session.manifest.paths@.len();
            let served = session.manifest.host.clipboard || session.manifest.host.commands@.len()
                > 0;
            &&& all.len() == entries + (if served {
                3int
            } else {
                2int
            })
            &&& served ==> all[entries] == (MountView {
                readonly: false,
                source: session.kept("host"@),
                target: "/run/compostbin/host"@,
            })
            &&& all[all.len() - 2] == (MountView {
                readonly: true,
                source: session.kept("managed"@),
                target: assistant::settings_dir(session.assistant@),
            })
            &&& all.last() == (MountView {
                readonly: false,
                source: session.home(),
                target: assistant::guest_home(session.assistant@),
            })
        }),
{
    lemma_exposed(session);
}

/// A container is created as the manifest declares: its image, size, variables and
/// ports, one by one and in order, with every mount of the session and started in
/// the project's place.
pub proof fn law_a_container_is_what_the_manifest_declares(session: &Session)
    ensures
        ({
            let spec = session.to_run();
            let container = session.manifest.container;
            let ports = session.manifest.host.ports@;
            &&& spec.mounts == session.mounted()
            &&& spec.workdir == Some(session.landing())
            &&& spec.name == "compostbin-"@ + session.project()
            &&& spec.resources.cpus == container.cpus
            &&& spec.resources.memory_in_bytes == container.memory.size
            &&& spec.env.len() == container.env@.len()
            &&& forall|i: int|
                0 <= i < container.env@.len() ==> spec.env[i] == EnvVarView::Inherit(
                    (#[trigger] container.env@[i])@,
                )
            &&& spec.sockets.len() == ports.len()
            &&& forall|i: int|
                0 <= i < ports.len() ==> {
                    let port = #[trigger] ports[i];
                    &&& spec.sockets[i].source == paths::joined(
                        session.kept("ports"@),
                        text::decimal(port as nat) + ".sock"@,
                    )
                    &&& spec.sockets[i].target == paths::joined(
                        "/run/compostbin/ports"@,
                        text::decimal(port as nat) + ".sock"@,
                    )
                }
            &&& ports.len() == 0 ==> spec.arguments == seq!["sleep"@, "infinity"@]
            &&& ports.len() > 0 ==> {
                &&& spec.arguments.len() == ports.len() + 1
                &&& spec.arguments[0] == "compostbin-ports"@
                &&& forall|i: int|
                    0 <= i < ports.len() ==> spec.arguments[i + 1] == text::decimal(
                        #[trigger] ports[i] as nat,
                    )
            }
        }),
{
}

/// The container runs the manifest's image, or, where the manifest adds anything to
/// it, one of the session's own.
pub proof fn law_additions_need_an_image_of_their_own(session: &Session)
    ensures
        ({
            let image = session.manifest.image;
            let plain = image.packages@.len() == 0 && image.run@.len() == 0
                && image.run_as_root@.len() == 0;
            &&& plain ==> session.to_run().image == session.manifest.project.image@
            &&& !plain ==> session.to_run().image == "compostbin/compostbin-"@ + session.project()
                + ":latest"@
        }),
{
    reveal_strlit("compostbin/");
    reveal_strlit("compostbin-");
    reveal_strlit("compostbin/compostbin-");
    assert("compostbin/"@ + "compostbin-"@ =~= "compostbin/compostbin-"@);
    assert("compostbin/"@ + ("compostbin-"@ + session.project()) + ":latest"@
        =~= "compostbin/compostbin-"@ + session.project() + ":latest"@);
}

/// A process that is attached has the variables that the manifest passes through,
/// then those that say where the assistant's home is and that this is a sandbox,
/// and, with a clipboard, the one that says so. It starts where the container does,
/// with the arguments it was given.
pub proof fn law_a_process_has_the_declared_variables(
    session: &Session,
    arguments: Seq<Seq<char>>,
)
    ensures
        ({
            let spec = session.to_exec(arguments);
            let passed = session.manifest.container.env@;
            let n = passed.len() as int;
            &&& spec.arguments == arguments
            &&& spec.name == session.to_run().name
            &&& spec.workdir == session.to_run().workdir
            &&& spec.interactive && spec.tty
            &&& forall|i: int|
                0 <= i < n ==> spec.env[i] == EnvVarView::Inherit((#[trigger] passed[i])@)
            &&& spec.env[n] == (EnvVarView::Assign {
                name: assistant::home_variable(session.assistant@),
                value: assistant::guest_home(session.assistant@),
            })
            &&& spec.env[n + 1] == (EnvVarView::Assign { name: "IS_SANDBOX"@, value: "1"@ })
            &&& spec.env.len() == n + (if session.manifest.host.clipboard {
                3int
            } else {
                2int
            })
            &&& session.manifest.host.clipboard ==> spec.env.last() == (EnvVarView::Assign {
                name: "WAYLAND_DISPLAY"@,
                value: "compostbin-clipboard"@,
            })
        }),
{
}

/// A session keeps what is its own below the user's home, in a directory that is
/// called after its project; the assistant's home is there too, unless the manifest
/// puts it elsewhere.
pub proof fn law_a_session_keeps_its_state_below_the_home(session: &Session, name: Seq<char>)
    ensures
        session.kept(name) == paths::joined(
            paths::joined(
                paths::joined(session.resolver.home@, ".local/state/compostbin/sessions"@),
                "compostbin-"@ + session.project(),
            ),
            name,
        ),
        session.state() == paths::joined(
            paths::joined(session.resolver.home@, ".local/state/compostbin/sessions"@),
            "compostbin-"@ + session.project(),
        ),
        match session.manifest.project.name {
            Some(name) => session.project() == name@,
            None => match paths::file_name(session.project_dir@) {
                Some(name) => session.project() == name,
                None => session.project().len() == 0,
            },
        },
        match session.manifest.claude.home {
            Some(home) => session.home() == session.resolver.leads_to(home@),
            None => session.home() == session.kept(session.assistant@ + "-home"@),
        },
{
    reveal_strlit("~/.local/state/compostbin/sessions");
    reveal_strlit(".local/state/compostbin/sessions");
    let raw = "~/.local/state/compostbin/sessions"@;
    assert(raw.skip(2) =~= ".local/state/compostbin/sessions"@);
    assert(seq!['~', '/'] =~= raw.subrange(0, 2));
}

/// A session starts where the project is mounted: below the guest path of the first
/// entry that covers the project's directory, by the same names.
pub proof fn law_a_session_starts_where_the_project_is(session: &Session, i: int)
    requires
        0 <= i < session.exposed().len(),
        forall|k: int|
            0 <= k < session.exposed().len() ==> (#[trigger] session.exposed()[k]).host.len() > 0
                && session.exposed()[k].guest.len() > 0,
        paths::within(session.project_dir@, session.exposed()[i].host),
        forall|k: int|
            0 <= k < i ==> !paths::within(
                session.project_dir@,
                (#[trigger] session.exposed()[k]).host,
            ),
    ensures
        paths::components(session.landing()) == paths::components(session.exposed()[i].guest)
            + paths::components(session.project_dir@).skip(
            paths::components(session.exposed()[i].host).len() as int,
        ),
{
    workspace::law_the_first_entry_that_covers_a_path_places_it(
        session.exposed(),
        session.project_dir@,
        i,
    );
}

/// Adding a path that no root covers records it, as asked and behind every other, and
/// says that a restart is needed; a path that a root covers is left as it is.
pub proof fn law_a_path_is_recorded_unless_a_root_covers_it(
    session: &mut Session,
    path: PathBuf,
    readonly: bool,
    local: bool,
    outcome: AddOutcome,
)
    requires
        call_ensures(Session::add, (session, path, readonly, local), outcome),
    ensures
        outcome is NeedsRestart <==> forall|i: int|
            0 <= i < old(session).manifest.workspace.roots@.len() ==> !paths::within(
                path@,
                old(session).resolver.leads_to(
                    (#[trigger] old(session).manifest.workspace.roots@[i])@,
                ),
            ),
        outcome is AlreadyMounted ==> final(session).manifest == old(session).manifest,
        outcome is NeedsRestart ==> {
            let before = old(session).manifest.paths@;
            let after = final(session).manifest.paths@;
            &&& after.len() == before.len() + 1
            &&& after.last().source@ == path@
            &&& after.last().readonly == readonly
            &&& after.last().local == local
            &&& after.last().target is None
            &&& forall|i: int| 0 <= i < before.len() ==> (#[trigger] after[i])@ == before[i]@
        },
{
    let declared = old(session).manifest.workspace.roots@;
    let roots = old(session).roots();
    paths::lemma_root_of(path@, roots);
    assert forall|i: int| 0 <= i < declared.len() implies roots[i]
        == old(session).resolver.leads_to((#[trigger] declared[i])@) by {}
    if let Some(root) = paths::root_of(path@, roots) {
        let k = choose|k: int| 0 <= k < roots.len() && roots[k] == root;
        assert(paths::within(path@, old(session).resolver.leads_to(declared[k]@)));
    } else {
        let before = old(session).manifest.paths@;
        let after = final(session).manifest.paths@;
        let shown = text::views(after);
        assert(shown.len() == after.len());
        assert(shown.last() == after[after.len() - 1]@);
        assert forall|i: int| 0 <= i < before.len() implies (#[trigger] after[i])@
            == before[i]@ by {
            assert(shown[i] == text::views(before)[i]);
        }
    }
}

} // verus!

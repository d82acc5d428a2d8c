//! What an engine runs and a builder builds.
use crate::paths::PathBuf;
use crate::text;
use vstd::prelude::*;

verus! {

/// What a VM is given. Always set by the caller, never defaulted by an engine.
#[derive(Clone, Copy, Debug, PartialEq, Eq, Structural)]
pub struct Resources {
    pub cpus: u32,
    pub memory_in_bytes: u64,
}

/// One build step: a named `RUN`. The name is what the build log shows.
#[derive(Debug, PartialEq, Eq)]
pub struct BuildStep {
    pub name: String,
    pub script: String,
    /// The guest user, as the image names it. `None` is root.
    pub user: Option<String>,
}

/// A `BuildStep`, its texts as sequences of characters.
#[verifier::ext_equal]
pub struct BuildStepView {
    pub name: Seq<char>,
    pub script: Seq<char>,
    pub user: Option<Seq<char>>,
}

impl View for BuildStep {
    type V = BuildStepView;

    open spec fn view(&self) -> BuildStepView {
        BuildStepView {
            name: self.name@,
            script: self.script@,
            user: text::view_of(self.user),
        }
    }
}

/// A copy of an optional text.
pub fn copy_text(item: &Option<String>) -> (r: Option<String>)
    ensures
        r == *item,
{
    match item {
        Some(inner) => Some(inner.clone()),
        None => None,
    }
}

/// A copy of an optional path.
pub fn copy_path(item: &Option<PathBuf>) -> (r: Option<PathBuf>)
    ensures
        r == *item,
{
    match item {
        Some(inner) => Some(inner.clone()),
        None => None,
    }
}

impl Clone for BuildStep {
    fn clone(&self) -> (r: Self)
        ensures
            r == *self,
    {
        BuildStep {
            name: self.name.clone(),
            script: self.script.clone(),
            user: copy_text(&self.user),
        }
    }
}

impl BuildStep {
    pub fn root(name: &str, script: &str) -> (r: Self)
        ensures
            r@ == (BuildStepView { name: name@, script: script@, user: None }),
    {
        BuildStep { name: name.to_string(), script: script.to_string(), user: None }
    }

    pub fn as_user(name: &str, user: &str, script: &str) -> (r: Self)
        ensures
            r@ == (BuildStepView { name: name@, script: script@, user: Some(user@) }),
    {
        BuildStep {
            name: name.to_string(),
            script: script.to_string(),
            user: Some(user.to_string()),
        }
    }
}

/// A host directory shared into every step of a build: what a step reads in
/// place of `COPY`.
#[derive(Debug, PartialEq)]
pub struct BuildMount {
    pub destination: String,
    pub readonly: bool,
    pub source: PathBuf,
}

/// A `BuildMount`, its texts as sequences of characters.
#[verifier::ext_equal]
pub struct BuildMountView {
    pub destination: Seq<char>,
    pub readonly: bool,
    pub source: Seq<char>,
}

impl View for BuildMount {
    type V = BuildMountView;

    open spec fn view(&self) -> BuildMountView {
        BuildMountView {
            destination: self.destination@,
            readonly: self.readonly,
            source: self.source@,
        }
    }
}

impl Clone for BuildMount {
    fn clone(&self) -> (r: Self)
        ensures
            r == *self,
    {
        BuildMount {
            destination: self.destination.clone(),
            readonly: self.readonly,
            source: self.source.clone(),
        }
    }
}

/// A label of an image: its key and its value.
#[derive(Debug, PartialEq, Eq)]
pub struct Label {
    pub key: String,
    pub value: String,
}

/// A `Label`, its texts as sequences of characters.
#[verifier::ext_equal]
pub struct LabelView {
    pub key: Seq<char>,
    pub value: Seq<char>,
}

impl View for Label {
    type V = LabelView;

    open spec fn view(&self) -> LabelView {
        LabelView { key: self.key@, value: self.value@ }
    }
}

impl Clone for Label {
    fn clone(&self) -> (r: Self)
        ensures
            r == *self,
    {
        Label { key: self.key.clone(), value: self.value.clone() }
    }
}

/// An image to build: a base, steps, and what the result runs as.
#[derive(Debug, PartialEq)]
pub struct BuildPlan {
    /// Registry-qualified: nothing expands `debian:stable-slim` to
    /// `docker.io/library/…`.
    pub base: String,
    /// Whether to start from cached snapshots. Off still writes them.
    pub cache: bool,
    /// `NAME=VALUE`, visible to every step and written into the image config.
    pub environment: Vec<String>,
    /// Written into the image config.
    pub labels: Vec<Label>,
    /// Host directories steps install from (the `COPY` equivalent).
    pub mounts: Vec<BuildMount>,
    /// The builder's own resources, not a session's.
    pub resources: Resources,
    pub steps: Vec<BuildStep>,
    /// What the built image is registered as.
    pub tag: String,
    /// The user and directory the built image runs as.
    pub user: Option<String>,
    pub workdir: Option<PathBuf>,
}

/// A `BuildPlan`, its texts as sequences of characters.
#[verifier::ext_equal]
pub struct BuildPlanView {
    pub base: Seq<char>,
    pub cache: bool,
    pub environment: Seq<Seq<char>>,
    pub labels: Seq<LabelView>,
    pub mounts: Seq<BuildMountView>,
    pub resources: Resources,
    pub steps: Seq<BuildStepView>,
    pub tag: Seq<char>,
    pub user: Option<Seq<char>>,
    pub workdir: Option<Seq<char>>,
}

impl View for BuildPlan {
    type V = BuildPlanView;

    open spec fn view(&self) -> BuildPlanView {
        BuildPlanView {
            base: self.base@,
            cache: self.cache,
            environment: text::views(self.environment@),
            labels: text::views(self.labels@),
            mounts: text::views(self.mounts@),
            resources: self.resources,
            steps: text::views(self.steps@),
            tag: self.tag@,
            user: text::view_of(self.user),
            workdir: text::view_of(self.workdir),
        }
    }
}

impl Clone for BuildPlan {
    fn clone(&self) -> (r: Self)
        ensures
            r@ == self@,
    {
        let r = BuildPlan {
            base: self.base.clone(),
            cache: self.cache,
            environment: self.environment.clone(),
            labels: self.labels.clone(),
            mounts: self.mounts.clone(),
            resources: self.resources,
            steps: self.steps.clone(),
            tag: self.tag.clone(),
            user: copy_text(&self.user),
            workdir: copy_path(&self.workdir),
        };
        assert(r.environment@ =~= self.environment@);
        assert(r.labels@ =~= self.labels@);
        assert(r.mounts@ =~= self.mounts@);
        assert(r.steps@ =~= self.steps@);
        r
    }
}

impl BuildPlan {
    pub fn new(base: &str, tag: &str, resources: Resources) -> (r: Self)
        ensures
            r@ == (BuildPlanView {
                base: base@,
                cache: true,
                environment: seq![],
                labels: seq![],
                mounts: seq![],
                resources,
                steps: seq![],
                tag: tag@,
                user: None,
                workdir: None,
            }),
    {
        let r = BuildPlan {
            base: base.to_string(),
            cache: true,
            environment: Vec::new(),
            labels: Vec::new(),
            mounts: Vec::new(),
            resources,
            steps: Vec::new(),
            tag: tag.to_string(),
            user: None,
            workdir: None,
        };
        assert(r@.environment =~= seq![]);
        assert(r@.labels =~= seq![]);
        assert(r@.mounts =~= seq![]);
        assert(r@.steps =~= seq![]);
        r
    }
}

/// A variable of a process in a container.
#[derive(Debug, PartialEq, Eq)]
pub enum EnvVar {
    /// The host's value; dropped if unset, so the guest can tell unset from empty.
    Inherit(String),
    Assign { name: String, value: String },
}

/// An `EnvVar`, its texts as sequences of characters.
pub enum EnvVarView {
    Inherit(Seq<char>),
    Assign { name: Seq<char>, value: Seq<char> },
}

impl View for EnvVar {
    type V = EnvVarView;

    open spec fn view(&self) -> EnvVarView {
        match self {
            EnvVar::Inherit(name) => EnvVarView::Inherit(name@),
            EnvVar::Assign { name, value } => EnvVarView::Assign { name: name@, value: value@ },
        }
    }
}

impl Clone for EnvVar {
    fn clone(&self) -> (r: Self)
        ensures
            r == *self,
    {
        match self {
            EnvVar::Inherit(name) => EnvVar::Inherit(name.clone()),
            EnvVar::Assign { name, value } => EnvVar::Assign {
                name: name.clone(),
                value: value.clone(),
            },
        }
    }
}

/// A process to run in an already-running container.
#[derive(Debug, PartialEq)]
pub struct ExecSpec {
    pub arguments: Vec<String>,
    pub env: Vec<EnvVar>,
    /// Whether the process reads the caller's stdin.
    pub interactive: bool,
    /// The container to run it in.
    pub name: String,
    /// Whether it gets the caller's terminal. Only the caller's own stdio says
    /// whether there is one, so an engine may run without it.
    pub tty: bool,
    /// The guest user, as the image names it. `None` is the image's default.
    pub user: Option<String>,
    pub workdir: Option<PathBuf>,
}

/// An `ExecSpec`, its texts as sequences of characters.
#[verifier::ext_equal]
pub struct ExecSpecView {
    pub arguments: Seq<Seq<char>>,
    pub env: Seq<EnvVarView>,
    pub interactive: bool,
    pub name: Seq<char>,
    pub tty: bool,
    pub user: Option<Seq<char>>,
    pub workdir: Option<Seq<char>>,
}

impl View for ExecSpec {
    type V = ExecSpecView;

    open spec fn view(&self) -> ExecSpecView {
        ExecSpecView {
            arguments: text::views(self.arguments@),
            env: text::views(self.env@),
            interactive: self.interactive,
            name: self.name@,
            tty: self.tty,
            user: text::view_of(self.user),
            workdir: text::view_of(self.workdir),
        }
    }
}

impl Clone for ExecSpec {
    fn clone(&self) -> (r: Self)
        ensures
            r@ == self@,
    {
        let r = ExecSpec {
            arguments: self.arguments.clone(),
            env: self.env.clone(),
            interactive: self.interactive,
            name: self.name.clone(),
            tty: self.tty,
            user: copy_text(&self.user),
            workdir: copy_path(&self.workdir),
        };
        assert(r.arguments@ =~= self.arguments@);
        assert(r.env@ =~= self.env@);
        r
    }
}

/// A host directory that a container sees.
#[derive(Debug, PartialEq)]
pub struct Mount {
    pub readonly: bool,
    pub source: PathBuf,
    pub target: PathBuf,
}

/// A `Mount`, its paths as sequences of characters.
#[verifier::ext_equal]
pub struct MountView {
    pub readonly: bool,
    pub source: Seq<char>,
    pub target: Seq<char>,
}

impl View for Mount {
    type V = MountView;

    open spec fn view(&self) -> MountView {
        MountView { readonly: self.readonly, source: self.source@, target: self.target@ }
    }
}

impl MountView {
    /// `source:target[:ro]`, as a drift report shows it.
    pub open spec fn shown(self) -> Seq<char> {
        let whole = self.source + ":"@ + self.target;
        if self.readonly {
            whole + ":ro"@
        } else {
            whole
        }
    }
}

impl Clone for Mount {
    fn clone(&self) -> (r: Self)
        ensures
            r == *self,
    {
        Mount {
            readonly: self.readonly,
            source: self.source.clone(),
            target: self.target.clone(),
        }
    }
}

impl Mount {
    /// `source:target[:ro]`, as `doctor`'s drift report shows it.
    pub fn to_string(&self) -> (r: String)
        ensures
            r@ == self@.shown(),
    {
        let mut out = self.source.display();
        out.append(":");
        out.append(self.target.as_str());
        if self.readonly {
            out.append(":ro");
        }
        out
    }
}

/// A host unix socket relayed into the guest. Not a `Mount`: mounting a socket
/// relays nothing.
#[derive(Debug, PartialEq)]
pub struct SocketRelay {
    pub source: PathBuf,
    pub target: PathBuf,
}

/// A `SocketRelay`, its paths as sequences of characters.
#[verifier::ext_equal]
pub struct SocketRelayView {
    pub source: Seq<char>,
    pub target: Seq<char>,
}

impl View for SocketRelay {
    type V = SocketRelayView;

    open spec fn view(&self) -> SocketRelayView {
        SocketRelayView { source: self.source@, target: self.target@ }
    }
}

impl Clone for SocketRelay {
    fn clone(&self) -> (r: Self)
        ensures
            r == *self,
    {
        SocketRelay { source: self.source.clone(), target: self.target.clone() }
    }
}

/// A container to create and start. Mounts keep declared order, which matters
/// for nested paths.
#[derive(Debug, PartialEq)]
pub struct RunSpec {
    pub arguments: Vec<String>,
    pub env: Vec<EnvVar>,
    pub image: String,
    pub mounts: Vec<Mount>,
    pub name: String,
    pub resources: Resources,
    /// Relayed after the mounts; nothing nests in a socket, so that's safe.
    pub sockets: Vec<SocketRelay>,
    pub workdir: Option<PathBuf>,
}

/// A `RunSpec`, its texts as sequences of characters.
#[verifier::ext_equal]
pub struct RunSpecView {
    pub arguments: Seq<Seq<char>>,
    pub env: Seq<EnvVarView>,
    pub image: Seq<char>,
    pub mounts: Seq<MountView>,
    pub name: Seq<char>,
    pub resources: Resources,
    pub sockets: Seq<SocketRelayView>,
    pub workdir: Option<Seq<char>>,
}

impl View for RunSpec {
    type V = RunSpecView;

    open spec fn view(&self) -> RunSpecView {
        RunSpecView {
            arguments: text::views(self.arguments@),
            env: text::views(self.env@),
            image: self.image@,
            mounts: text::views(self.mounts@),
            name: self.name@,
            resources: self.resources,
            sockets: text::views(self.sockets@),
            workdir: text::view_of(self.workdir),
        }
    }
}

impl Clone for RunSpec {
    fn clone(&self) -> (r: Self)
        ensures
            r@ == self@,
    {
        let r = RunSpec {
            arguments: self.arguments.clone(),
            env: self.env.clone(),
            image: self.image.clone(),
            mounts: self.mounts.clone(),
            name: self.name.clone(),
            resources: self.resources,
            sockets: self.sockets.clone(),
            workdir: copy_path(&self.workdir),
        };
        assert(r.arguments@ =~= self.arguments@);
        assert(r.env@ =~= self.env@);
        assert(r.mounts@ =~= self.mounts@);
        assert(r.sockets@ =~= self.sockets@);
        r
    }
}

/// A mount is shown by where it is, where it appears, and whether it can only be
/// read.
pub proof fn law_a_mount_is_shown_whole(mount: MountView)
    ensures
        (mount.source + ":"@ + mount.target).is_prefix_of(mount.shown()),
        mount.shown().len() == (mount.source + ":"@ + mount.target).len() + (if mount.readonly {
            3int
        } else {
            0int
        }),
        mount.readonly ==> ":ro"@.is_suffix_of(mount.shown()),
{
    reveal_strlit(":ro");
    let whole = mount.source + ":"@ + mount.target;
    let shown = mount.shown();
    assert(whole =~= shown.subrange(0, whole.len() as int));
    if mount.readonly {
        assert(":ro"@ =~= shown.subrange(shown.len() - ":ro"@.len(), shown.len() as int));
    }
}

} // verus!

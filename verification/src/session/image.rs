//! What the base image is.
//!
//! `base_plan` is its definition: the steps, in the order they run, with the names
//! its build log shows. `project_plan` is the same for whatever a manifest adds on
//! top. The builder boots the base, runs the steps in it, and writes the result
//! back as an image.
use crate::assistant;
use crate::engine::builder::{BuildCallView, BuildLog, Builder};
use crate::engine::error::EngineError;
use crate::engine::model::{
    BuildMount, BuildMountView, BuildPlan, BuildPlanView, BuildStep, BuildStepView, Label,
    LabelView, Resources,
};
use crate::error::{ImageError, PathError};
use crate::paths;
use crate::paths::PathBuf;
use crate::session::{Session, GUEST_PORTS_NAME};
use crate::text;
use crate::workspace::WORKSPACE_TARGET;
use vstd::prelude::*;

verus! {

/// Where the image store lives. Under `.cache` because everything in it is
/// regenerable: the images by a build, the kernel and the init image by a
/// download.
pub const IMAGE_STORE: &'static str = "~/.cache/compostbin/images";

/// Where the guest scripts are staged for a build to read. Kept afterwards, so
/// a failed build can be poked at; under `.cache` because it is regenerable.
pub const BUILD_CONTEXT: &'static str = "~/.cache/compostbin/build";

/// Where the staged scripts appear inside the builder. A step that names it is
/// keyed on what it holds, so editing a guest script rebuilds that step alone.
pub const CONTEXT_MOUNT: &'static str = "/mnt/compostbin-context";

/// The builder's processors.
pub const BUILD_CPUS: u32 = 4;

/// The builder's memory. Above 2 GB, which is too little to install the assistant.
pub const BUILD_MEMORY_IN_BYTES: u64 = 8_589_934_592;

/// What the base image is built from. Registry-qualified: nothing downstream
/// resolves a bare `debian:stable-slim`.
pub const BASE_IMAGE: &'static str = "docker.io/library/debian:stable-slim";

/// Marks an image as this tool's, so a store holding images from elsewhere
/// still says which are ours: the label, and the version that built it.
pub const BUILT_BY: (&'static str, &'static str) = ("dev.compostbin.built-by", "0.1.0");

/// The tools the base image installs. `socat` is the port relay's; the rest are
/// what a session needs to be usable.
pub const PACKAGES: [&'static str; 10] = [
    "ca-certificates",
    "curl",
    "git",
    "jq",
    "less",
    "openssh-client",
    "procps",
    "ripgrep",
    "socat",
    "unzip",
];

/// One script under four names, each ahead of any real one on `PATH`, so a
/// project image that installs `xclip` still copies to the host's pasteboard.
pub const CLIPBOARD_TOOLS: [&'static str; 4] = ["pbcopy", "wl-copy", "xclip", "xsel"];

/// The guest-side client of the host-command channel. A shell script because the
/// container is Linux while compostbin itself is a macOS binary.
pub const GUEST_CLIENT_NAME: &'static str = "compostbin-host";

pub const GUEST_CLIPBOARD_NAME: &'static str = "compostbin-clipboard";

/// Every script a build's context must hold: the steps install them by name.
pub const GUEST_SCRIPTS: [&'static str; 3] = [
    "compostbin-host",
    "compostbin-clipboard",
    "compostbin-ports",
];

// ---------------------------------------------------------------------------
// What the images are
// ---------------------------------------------------------------------------

/// The builder's size.
pub open spec fn build_size() -> Resources {
    Resources { cpus: BUILD_CPUS, memory_in_bytes: BUILD_MEMORY_IN_BYTES }
}

/// The packages of the base image.
pub open spec fn base_packages() -> Seq<Seq<char>> {
    seq![
        "ca-certificates"@,
        "curl"@,
        "git"@,
        "jq"@,
        "less"@,
        "openssh-client"@,
        "procps"@,
        "ripgrep"@,
        "socat"@,
        "unzip"@,
    ]
}

/// Packages, each on a line of its own.
pub open spec fn indented(packages: Seq<Seq<char>>) -> Seq<Seq<char>> {
    packages.map_values(|package: Seq<char>| "      "@ + package)
}

/// The step that installs packages.
pub open spec fn installing(packages: Seq<Seq<char>>) -> BuildStepView {
    BuildStepView {
        name: "packages"@,
        script: "apt-get update \\\n && apt-get install --no-install-recommends --yes \\\n"@
            + text::join(indented(packages), " \\\n"@) + " \\\n && rm -rf /var/lib/apt/lists/*"@,
        user: None,
    }
}

/// The step that installs the assistant.
pub open spec fn assistant_step(name: Seq<char>) -> BuildStepView {
    BuildStepView {
        name: assistant::install_step(name),
        script: assistant::install_script(name),
        user: None,
    }
}

/// The command that installs a guest script.
pub open spec fn install(name: Seq<char>) -> Seq<char> {
    "install -m 755 /mnt/compostbin-context/"@ + name + " /usr/local/bin/"@ + name
}

/// The step that installs the guest scripts, and the clipboard's under the names
/// of the tools it stands for.
pub open spec fn scripts_step() -> BuildStepView {
    BuildStepView {
        name: "guest scripts"@,
        script: install("compostbin-host"@) + " \\\n && "@ + install("compostbin-clipboard"@)
            + " \\\n && "@ + install("compostbin-ports"@)
            + " \\\n && for tool in pbcopy wl-copy xclip xsel; do \\\n      ln -s compostbin-clipboard \"/usr/local/bin/$tool\"; \\\n    done"@,
        user: None,
    }
}

/// The step that creates the session's user, and the directories that the mounts
/// land on.
pub open spec fn user_step(name: Seq<char>) -> BuildStepView {
    BuildStepView {
        name: "the session's user"@,
        script: assistant::account_script(name),
        user: None,
    }
}

/// What marks an image as this tool's.
pub open spec fn mark() -> LabelView {
    LabelView { key: "dev.compostbin.built-by"@, value: "0.1.0"@ }
}

/// Steps that run lines as one user.
pub open spec fn line_steps(lines: Seq<Seq<char>>, user: Option<Seq<char>>) -> Seq<BuildStepView> {
    lines.map_values(|line: Seq<char>| BuildStepView { name: line, script: line, user })
}

impl Session {
    /// Where the base image's scripts are staged on the host.
    pub open spec fn build_context(&self) -> Seq<char> {
        paths::joined(self.resolver.leads_to("~/.cache/compostbin/build"@), "base"@)
    }

    /// The base image.
    pub open spec fn base_image(&self, cache: bool) -> BuildPlanView {
        BuildPlanView {
            base: "docker.io/library/debian:stable-slim"@,
            cache,
            environment: seq![
                assistant::home_variable(self.assistant@) + "="@ + assistant::guest_home(
                    self.assistant@,
                ),
            ],
            labels: seq![mark()],
            mounts: seq![
                BuildMountView {
                    destination: "/mnt/compostbin-context"@,
                    readonly: true,
                    source: self.build_context(),
                },
            ],
            resources: build_size(),
            steps: seq![
                installing(base_packages()),
                assistant_step(self.assistant@),
                scripts_step(),
                user_step(self.assistant@),
            ],
            tag: self.manifest.project.image@,
            user: Some(self.assistant@),
            workdir: Some("/workspace"@),
        }
    }

    /// What the manifest adds to the base, as steps.
    pub open spec fn additions(&self) -> Seq<BuildStepView> {
        let packages = text::views(self.manifest.image.packages@);
        (if packages.len() == 0 {
            Seq::empty()
        } else {
            seq![installing(packages)]
        }) + line_steps(text::views(self.manifest.image.run_as_root@), None) + line_steps(
            text::views(self.manifest.image.run@),
            Some(self.assistant@),
        )
    }

    /// The project's own image.
    pub open spec fn project_image(&self, cache: bool) -> BuildPlanView {
        BuildPlanView {
            base: self.manifest.project.image@,
            cache,
            environment: seq![],
            labels: seq![mark()],
            mounts: seq![],
            resources: build_size(),
            steps: self.additions(),
            tag: self.image_name(),
            user: Some(self.assistant@),
            workdir: Some(assistant::user_home(self.assistant@)),
        }
    }

    /// What a build asks a builder for, once the store is provisioned.
    pub open spec fn builds(&self, cache: bool) -> Seq<BuildCallView> {
        let base = BuildCallView::Build(self.base_image(cache));
        if self.manifest.image.adds_nothing() {
            seq![base]
        } else {
            seq![base, BuildCallView::Build(self.project_image(cache))]
        }
    }

    /// What a build asks a builder for, and what comes of it: each image in turn,
    /// as long as the one before was built. The first that fails is the last asked
    /// for, and its error is the build's; where none fails, the build succeeds.
    pub open spec fn are_built(
        &self,
        cache: bool,
        made: BuildLog,
        r: Result<(), ImageError>,
    ) -> bool {
        let asked = self.builds(cache);
        &&& 1 <= made.len() <= asked.len()
        &&& forall|i: int| 0 <= i < made.len() ==> (#[trigger] made[i]).0 == asked[i]
        &&& forall|i: int| 0 <= i < made.len() - 1 ==> (#[trigger] made[i]).1 is Ok
        &&& match made.last().1 {
            Ok(()) => made.len() == asked.len() && r == Ok::<(), ImageError>(()),
            Err(error) => r == Err::<(), ImageError>(ImageError::Engine(error)),
        }
    }
}

// ---------------------------------------------------------------------------
// Plans
// ---------------------------------------------------------------------------

/// The builder's size. Not the manifest's `[container]`: a project asking for a
/// bigger session must not resize everyone's build.
pub fn build_resources() -> (r: Resources)
    ensures
        r == build_size(),
{
    Resources { cpus: BUILD_CPUS, memory_in_bytes: BUILD_MEMORY_IN_BYTES }
}

fn install_packages(packages: &Vec<String>) -> (r: BuildStep)
    ensures
        r@ == installing(text::views(packages@)),
{
    let ghost all = text::views(packages@);
    let mut lines: Vec<String> = Vec::new();
    let mut i: usize = 0;
    while i < packages.len()
        invariant
            i <= packages@.len(),
            all == text::views(packages@),
            lines@.len() == i,
            forall|j: int| 0 <= j < i ==> (#[trigger] lines@[j])@ == "      "@ + all[j],
        decreases packages.len() - i,
    {
        let mut line = "      ".to_string();
        line.append(packages[i].as_str());
        lines.push(line);
        i = i + 1;
    }
    assert(text::views(lines@) =~= indented(all));
    let mut script = "apt-get update \\\n && apt-get install --no-install-recommends --yes \\\n".to_string();
    script.append(text::joined(&lines, " \\\n").as_str());
    script.append(" \\\n && rm -rf /var/lib/apt/lists/*");
    BuildStep::root("packages", script.as_str())
}

fn tools() -> (r: Vec<String>)
    ensures
        text::views(r@) == base_packages(),
{
    let mut out: Vec<String> = Vec::new();
    let mut i: usize = 0;
    while i < PACKAGES.len()
        invariant
            i <= 10,
            out@.len() == i,
            forall|j: int| 0 <= j < i ==> (#[trigger] out@[j])@ == PACKAGES@[j]@,
        decreases 10 - i,
    {
        out.push(PACKAGES[i].to_string());
        i = i + 1;
    }
    assert(text::views(out@) =~= base_packages());
    out
}

fn append_install(script: &mut String, name: &str)
    ensures
        final(script)@ == old(script)@ + install(name@),
{
    script.append("install -m 755 /mnt/compostbin-context/");
    script.append(name);
    script.append(" /usr/local/bin/");
    script.append(name);
    assert(script@ =~= old(script)@ + install(name@));
}

fn install_scripts() -> (r: BuildStep)
    ensures
        r@ == scripts_step(),
{
    let mut script = String::new();
    append_install(&mut script, GUEST_CLIENT_NAME);
    script.append(" \\\n && ");
    append_install(&mut script, GUEST_CLIPBOARD_NAME);
    script.append(" \\\n && ");
    append_install(&mut script, GUEST_PORTS_NAME);
    script.append(
        " \\\n && for tool in pbcopy wl-copy xclip xsel; do \\\n      ln -s compostbin-clipboard \"/usr/local/bin/$tool\"; \\\n    done",
    );
    assert(script@ =~= scripts_step().script);
    BuildStep::root("guest scripts", script.as_str())
}

fn built_by() -> (r: Vec<Label>)
    ensures
        text::views(r@) == seq![mark()],
{
    let mut out: Vec<Label> = Vec::new();
    out.push(Label { key: BUILT_BY.0.to_string(), value: BUILT_BY.1.to_string() });
    assert(text::views(out@) =~= seq![mark()]);
    out
}

/// The base image: debian, the tools a session needs, the assistant, the guest
/// side of the host channel, and the user it all ends up running as.
///
/// The variable it sets keeps the account and the onboarding answers inside the
/// mounted home. Without it the assistant writes them beside that home, where they
/// die with the container, and every restart asks for a fresh login.
///
/// Nothing in a session needs root: the mounts are the user's own files, and a
/// container that installs packages at run time is one whose image is wrong.
pub fn base_plan(session: &Session) -> (r: BuildPlan)
    ensures
        r@ == session.base_image(true),
{
    let mut plan = BuildPlan::new(
        BASE_IMAGE,
        session.manifest.project.image.as_str(),
        build_resources(),
    );
    plan.mounts.push(
        BuildMount {
            destination: CONTEXT_MOUNT.to_string(),
            readonly: true,
            source: context(session),
        },
    );
    assert(plan@.mounts =~= session.base_image(true).mounts);
    let mut home = session.assistant.home_variable();
    home.append("=");
    home.append(session.assistant.guest_home().as_str());
    plan.environment.push(home);
    assert(plan@.environment =~= session.base_image(true).environment);
    plan.labels = built_by();
    plan.user = Some(session.assistant.name.clone());
    plan.workdir = Some(PathBuf::from(WORKSPACE_TARGET));
    let packages = install_packages(&tools());
    let installed = BuildStep::root(
        session.assistant.install_step().as_str(),
        session.assistant.install_script().as_str(),
    );
    let scripts = install_scripts();
    // The managed-settings mountpoint (the briefing) is created here because the
    // guest cannot create it under /etc; root-owned because nothing in a session
    // may edit what it is told.
    //
    // The home and workspace mountpoints are created owned by the user, so the
    // first run has them before the host directories exist and nothing under them
    // is left owned by root.
    let user = BuildStep::root(
        "the session's user",
        session.assistant.account_script().as_str(),
    );
    let mut steps: Vec<BuildStep> = Vec::new();
    steps.push(packages);
    steps.push(installed);
    steps.push(scripts);
    steps.push(user);
    assert(text::views(steps@) =~= seq![packages@, installed@, scripts@, user@]);
    plan.steps = steps;
    assert(plan@.steps =~= session.base_image(true).steps);
    plan
}

fn push_lines(steps: &mut Vec<BuildStep>, lines: &Vec<String>, user: Option<&str>)
    ensures
        text::views(final(steps)@) == text::views(old(steps)@) + line_steps(
            text::views(lines@),
            match user {
                Some(name) => Some(name@),
                None => None,
            },
        ),
{
    let ghost before = text::views(steps@);
    let ghost all = text::views(lines@);
    let ghost who = match user {
        Some(name) => Some(name@),
        None => None,
    };
    let mut i: usize = 0;
    assert(text::views(steps@) =~= before + line_steps(all.take(0), who));
    while i < lines.len()
        invariant
            i <= lines@.len(),
            all == text::views(lines@),
            who == (match user {
                Some(name) => Some(name@),
                None => None,
            }),
            text::views(steps@) == before + line_steps(all.take(i as int), who),
        decreases lines.len() - i,
    {
        let line = lines[i].as_str();
        let step = match user {
            Some(name) => BuildStep::as_user(line, name, line),
            None => BuildStep::root(line, line),
        };
        proof {
            text::lemma_views_push(steps@, step);
            assert(line_steps(all.take(i + 1), who) =~= line_steps(all.take(i as int), who).push(
                step@,
            ));
        }
        steps.push(step);
        assert(text::views(steps@) =~= before + line_steps(all.take(i + 1), who));
        i = i + 1;
    }
    assert(all.take(i as int) =~= all);
}

/// The plan for the project's own image, or `None` when the manifest adds
/// nothing and the session can run the base itself.
///
/// Root steps, then user steps: packages (apt needs root), then `run_as_root`,
/// then `run` as the session's user, so a line appending to `~/.bashrc` writes
/// the file the session reads.
///
/// The image always ends as that user: a session must not run as root.
pub fn project_plan(session: &Session) -> (r: Option<BuildPlan>)
    ensures
        match r {
            Some(plan) => !session.manifest.image.adds_nothing() && plan@ == session.project_image(
                true,
            ),
            None => session.manifest.image.adds_nothing(),
        },
{
    let manifest = &session.manifest;
    if manifest.image.is_empty() {
        return None;
    }
    let mut plan = BuildPlan::new(
        manifest.project.image.as_str(),
        session.image().as_str(),
        build_resources(),
    );
    plan.labels = built_by();
    plan.user = Some(session.assistant.name.clone());
    plan.workdir = Some(PathBuf::from(session.assistant.user_home()));
    let mut steps: Vec<BuildStep> = Vec::new();
    assert(text::views(steps@) =~= seq![]);
    if manifest.image.packages.len() > 0 {
        steps.push(install_packages(&manifest.image.packages));
        assert(text::views(steps@) =~= seq![
            installing(text::views(manifest.image.packages@)),
        ]);
    }
    push_lines(&mut steps, &manifest.image.run_as_root, None);
    push_lines(&mut steps, &manifest.image.run, Some(session.assistant.name.as_str()));
    plan.steps = steps;
    assert(plan@.steps =~= session.additions());
    Some(plan)
}

/// The base image's build context, resolved against the host.
pub fn context(session: &Session) -> (r: PathBuf)
    ensures
        r@ == session.build_context(),
{
    session.resolve(BUILD_CONTEXT).join("base")
}

/// Where the store lives, resolved against the host.
pub fn store(session: &Session) -> (r: PathBuf)
    ensures
        r@ == session.resolver.leads_to("~/.cache/compostbin/images"@),
{
    session.resolve(IMAGE_STORE)
}

// ---------------------------------------------------------------------------
// Building
// ---------------------------------------------------------------------------

/// Where each guest script has to stand before a build: a step that installs one
/// that does not fails the build.
pub fn staged(session: &Session) -> (r: Vec<PathBuf>)
    ensures
        text::views(r@) == seq![
            paths::joined(session.build_context(), "compostbin-host"@),
            paths::joined(session.build_context(), "compostbin-clipboard"@),
            paths::joined(session.build_context(), "compostbin-ports"@),
        ],
{
    let directory = context(session);
    let mut out: Vec<PathBuf> = Vec::new();
    out.push(directory.join(GUEST_SCRIPTS[0]));
    out.push(directory.join(GUEST_SCRIPTS[1]));
    out.push(directory.join(GUEST_SCRIPTS[2]));
    assert(text::views(out@) =~= seq![
        paths::joined(session.build_context(), "compostbin-host"@),
        paths::joined(session.build_context(), "compostbin-clipboard"@),
        paths::joined(session.build_context(), "compostbin-ports"@),
    ]);
    out
}

/// Provisions the store, which a build does first so that there is no separate
/// setup step to remember, and says where the guest scripts have to stand before
/// it goes on.
pub fn provision<B: Builder>(session: &Session, builder: &mut B) -> (r: Result<
    Vec<PathBuf>,
    ImageError,
>)
    ensures
        final(builder).log().len() == old(builder).log().len() + 1,
        final(builder).log().drop_last() == old(builder).log(),
        final(builder).log().last().0 == BuildCallView::Provision,
        match final(builder).log().last().1 {
            Err(error) => r == Err::<Vec<PathBuf>, ImageError>(ImageError::Engine(error)),
            Ok(()) => r is Ok && text::views(r->Ok_0@) == seq![
                paths::joined(session.build_context(), "compostbin-host"@),
                paths::joined(session.build_context(), "compostbin-clipboard"@),
                paths::joined(session.build_context(), "compostbin-ports"@),
            ],
        },
{
    let ghost before = builder.log();
    let provisioned = builder.provision();
    assert(builder.log().drop_last() =~= before);
    match provisioned {
        Ok(()) => Ok(staged(session)),
        Err(error) => Err(ImageError::from(error)),
    }
}

/// Builds the base image, and then the project's own when the manifest adds
/// anything to it, once the guest scripts are staged.
///
/// The base is shared by every project, so anything belonging to one (a
/// language toolchain, a private CA) goes in the derived image.
pub fn build<B: Builder>(
    session: &Session,
    builder: &mut B,
    staging: Result<(), PathError>,
    cache: bool,
) -> (r: Result<(), ImageError>)
    ensures
        match staging {
            Err(error) => *final(builder) == *old(builder) && r == Err::<(), ImageError>(
                ImageError::Io(error),
            ),
            Ok(()) => {
                &&& final(builder).log().take(old(builder).log().len() as int)
                    == old(builder).log()
                &&& session.are_built(
                    cache,
                    final(builder).log().skip(old(builder).log().len() as int),
                    r,
                )
            },
        },
{
    match staging {
        Err(error) => {
            return Err(ImageError::from(error));
        },
        Ok(()) => {},
    }
    let ghost before = builder.log();
    let mut base = base_plan(session);
    base.cache = cache;
    assert(base@ =~= session.base_image(cache));
    let built = builder.build(&base);
    let ghost first = builder.log().last();
    assert(builder.log().skip(before.len() as int) =~= seq![first]);
    assert(builder.log().take(before.len() as int) =~= before);
    match built {
        Err(error) => {
            return Err(ImageError::from(error));
        },
        Ok(()) => {},
    }
    match project_plan(session) {
        Some(project) => {
            let mut plan = project;
            plan.cache = cache;
            assert(plan@ =~= session.project_image(cache));
            let built = builder.build(&plan);
            let ghost second = builder.log().last();
            assert(builder.log().skip(before.len() as int) =~= seq![first, second]);
            assert(builder.log().take(before.len() as int) =~= before);
            match built {
                Err(error) => Err(ImageError::from(error)),
                Ok(()) => Ok(()),
            }
        },
        None => Ok(()),
    }
}

// ---------------------------------------------------------------------------
// Laws
// ---------------------------------------------------------------------------

/// Every image that a build makes ends as the session's user, never as root,
/// carries this tool's mark, and is built at the builder's own size, whatever the
/// manifest gives a session.
pub proof fn law_images_end_as_the_session_user(session: &Session, cache: bool, i: int)
    requires
        0 <= i < session.builds(cache).len(),
    ensures
        session.builds(cache)[i] matches BuildCallView::Build(plan) && plan.user
            == Some(session.assistant@) && plan.labels == seq![mark()] && plan.resources
            == build_size() && plan.cache == cache,
{
}

/// A build that succeeds has built every image it asked for, the base first; one
/// that fails has stopped at what failed, and says why.
pub proof fn law_a_build_succeeds_only_if_every_image_was_built(
    session: &Session,
    cache: bool,
    made: BuildLog,
    r: Result<(), ImageError>,
)
    requires
        session.are_built(cache, made, r),
    ensures
        r is Ok <==> made.len() == session.builds(cache).len() && forall|i: int|
            0 <= i < made.len() ==> (#[trigger] made[i]).1 is Ok,
        r matches Err(error) ==> error is Engine && made.last().1 == Err::<(), EngineError>(
            error->Engine_0,
        ),
{
    assert(made.last() == made[made.len() - 1]);
}

/// Every step of the base runs as root: there is no user to drop to until the
/// last has created one.
pub proof fn law_every_base_step_runs_as_root(session: &Session, cache: bool, i: int)
    requires
        0 <= i < session.base_image(cache).steps.len(),
    ensures
        session.base_image(cache).steps[i].user is None,
{
}

/// In the project's image no root step follows a user step.
pub proof fn law_root_steps_come_first(session: &Session, i: int, j: int)
    requires
        0 <= i < j < session.additions().len(),
        session.additions()[j].user is None,
    ensures
        session.additions()[i].user is None,
{
}

/// The project's image extends the base, rather than repeating it, and is the one
/// that the session then runs; where the manifest adds nothing, that is the base.
pub proof fn law_the_session_runs_what_was_built_last(session: &Session, cache: bool)
    ensures
        session.builds(cache).last() matches BuildCallView::Build(plan) && plan.tag
            == session.to_run().image,
        session.builds(cache).len() == 2 ==> session.project_image(cache).base
            == session.base_image(cache).tag,
{
}

/// Where a part stands in what is joined: between what is before and after it, each
/// of which meets it with the mark, or is nothing.
proof fn lemma_joined_part(parts: Seq<Seq<char>>, mark: Seq<char>, i: int) -> (r: (
    Seq<char>,
    Seq<char>,
))
    requires
        0 <= i < parts.len(),
    ensures
        text::join(parts, mark) == r.0 + parts[i] + r.1,
        i == 0 ==> r.0.len() == 0,
        i > 0 ==> r.0.len() >= mark.len() && r.0.subrange(
            r.0.len() - mark.len(),
            r.0.len() as int,
        ) == mark,
        i == parts.len() - 1 ==> r.1.len() == 0,
        i < parts.len() - 1 ==> r.1.len() >= mark.len() && r.1.take(mark.len() as int) == mark,
    decreases parts.len(),
{
    let none = Seq::<char>::empty();
    if parts.len() == 1 {
        assert(text::join(parts, mark) =~= none + parts[i] + none);
        (none, none)
    } else {
        let rest = parts.drop_last();
        let before = text::join(rest, mark);
        assert(text::join(parts, mark) == before + mark + parts.last());
        if i == parts.len() - 1 {
            let a = before + mark;
            assert(a.subrange(a.len() - mark.len(), a.len() as int) =~= mark);
            assert(text::join(parts, mark) =~= a + parts[i] + none);
            (a, none)
        } else {
            let (a, b) = lemma_joined_part(rest, mark, i);
            let after = b + mark + parts.last();
            assert(rest[i] == parts[i]);
            assert(text::join(parts, mark) =~= a + parts[i] + after);
            assert(after.take(mark.len() as int) =~= mark) by {
                if i < rest.len() - 1 {
                    assert(after.take(mark.len() as int) =~= b.take(mark.len() as int));
                }
            }
            (a, after)
        }
    }
}

/// The step that installs packages has a line for each.
proof fn lemma_package_line(packages: Seq<Seq<char>>, i: int)
    requires
        0 <= i < packages.len(),
    ensures
        text::contains_text(
            installing(packages).script,
            "\n      "@ + packages[i] + " \\\n"@,
        ),
{
    reveal_strlit("\n      ");
    reveal_strlit("      ");
    reveal_strlit(" \\\n");
    reveal_strlit("apt-get update \\\n && apt-get install --no-install-recommends --yes \\\n");
    reveal_strlit(" \\\n && rm -rf /var/lib/apt/lists/*");
    let head = "apt-get update \\\n && apt-get install --no-install-recommends --yes \\\n"@;
    let tail = " \\\n && rm -rf /var/lib/apt/lists/*"@;
    let mark = " \\\n"@;
    let lines = indented(packages);
    let script = installing(packages).script;
    let (a, b) = lemma_joined_part(lines, mark, i);
    assert(lines[i] == "      "@ + packages[i]);
    let wanted = "\n      "@ + packages[i] + " \\\n"@;
    let left = head + a;
    let right = b + tail;
    assert(script =~= left + lines[i] + right);
    assert(left.last() == '\n') by {
        if i > 0 {
            assert(a.last() == a.subrange(a.len() - mark.len(), a.len() as int)[2]);
            assert(left.last() == a.last());
        } else {
            assert(left =~= head);
        }
    }
    assert(right.take(3) =~= mark) by {
        if i < lines.len() - 1 {
            assert(right.take(3) =~= b.take(3));
        } else {
            assert(right =~= tail);
        }
    }
    let at = left.len() - 1;
    assert(wanted.len() == packages[i].len() + 10);
    assert forall|k: int| 0 <= k < wanted.len() implies script.subrange(
        at,
        at + wanted.len(),
    )[k] == wanted[k] by {
        if k == 0 {
        } else if k < 7 + packages[i].len() {
            assert(script[at + k] == lines[i][k - 1]);
        } else {
            let m = k - 7 - packages[i].len();
            assert(script[at + k] == right[m]);
            assert(right[m] == right.take(3)[m]);
        }
    }
    assert(script.subrange(at, at + wanted.len()) =~= wanted);
}

/// Every package that the manifest declares has its line in the first step of the
/// project's image, which runs as root.
pub proof fn law_every_declared_package_is_installed(session: &Session, cache: bool, i: int)
    requires
        0 <= i < session.manifest.image.packages@.len(),
    ensures
        session.builds(cache).len() == 2,
        match session.builds(cache)[1] {
            BuildCallView::Build(plan) => plan.steps.len() > 0 && plan.steps[0].user is None
                && text::contains_text(
                plan.steps[0].script,
                "\n      "@ + session.manifest.image.packages@[i]@ + " \\\n"@,
            ),
            _ => false,
        },
{
    let packages = text::views(session.manifest.image.packages@);
    lemma_package_line(packages, i);
    assert(packages[i] == session.manifest.image.packages@[i]@);
    assert(session.additions()[0] == installing(packages));
}

/// The lines of the step that installs packages.
proof fn lemma_package_script(packages: Seq<Seq<char>>, k: int)
    requires
        1 <= k <= packages.len(),
    ensures
        text::join(
            seq![
                "apt-get update \\"@,
                " && apt-get install --no-install-recommends --yes \\"@,
            ] + packages.take(k).map_values(|p: Seq<char>| "      "@ + p + " \\"@),
            seq!['\n'],
        ) == "apt-get update \\\n && apt-get install --no-install-recommends --yes \\\n"@
            + text::join(indented(packages.take(k)), " \\\n"@) + " \\"@,
    decreases k,
{
    reveal_strlit("apt-get update \\");
    reveal_strlit(" && apt-get install --no-install-recommends --yes \\");
    reveal_strlit("apt-get update \\\n && apt-get install --no-install-recommends --yes \\\n");
    reveal_strlit(" \\\n");
    reveal_strlit(" \\");
    let head = "apt-get update \\\n && apt-get install --no-install-recommends --yes \\\n"@;
    let two = seq![
        "apt-get update \\"@,
        " && apt-get install --no-install-recommends --yes \\"@,
    ];
    let newline = seq!['\n'];
    let line = |p: Seq<char>| "      "@ + p + " \\"@;
    let part = packages.take(k);
    let shorter = packages.take(k - 1);
    let lines = two + part.map_values(line);
    let before = two + shorter.map_values(line);
    assert(lines.drop_last() =~= before);
    assert(lines.last() == "      "@ + packages[k - 1] + " \\"@);
    assert(indented(part).drop_last() =~= indented(shorter));
    assert(indented(part).last() == "      "@ + packages[k - 1]);
    assert(text::join(lines, newline) == text::join(before, newline) + newline + lines.last());
    if k == 1 {
        assert(before =~= two);
        assert(two.drop_last() =~= seq!["apt-get update \\"@]);
        reveal_with_fuel(text::join, 3);
        assert(text::join(two, newline) + newline =~= head);
        assert(indented(part) =~= seq!["      "@ + packages[0]]);
        assert(text::join(indented(part), " \\\n"@) =~= "      "@ + packages[0]);
        assert(text::join(lines, newline) =~= head + text::join(indented(part), " \\\n"@)
            + " \\"@);
    } else {
        lemma_package_script(packages, k - 1);
        assert(text::join(indented(part), " \\\n"@) == text::join(indented(shorter), " \\\n"@)
            + " \\\n"@ + indented(part).last());
        assert(" \\"@ + newline =~= " \\\n"@);
        assert(text::join(lines, newline) =~= head + text::join(indented(part), " \\\n"@)
            + " \\"@);
    }
}

/// The step that installs what the manifest declares installs that and nothing
/// else: between the update, the install and the cleanup it has one line for each
/// package, in order.
pub proof fn law_nothing_else_is_installed(packages: Seq<Seq<char>>)
    requires
        packages.len() > 0,
        forall|i: int| 0 <= i < packages.len() ==> !(#[trigger] packages[i]).contains('\n'),
    ensures
        ({
            let lines = text::split(installing(packages).script, '\n');
            &&& lines.len() == packages.len() + 3
            &&& lines[0] == "apt-get update \\"@
            &&& lines[1] == " && apt-get install --no-install-recommends --yes \\"@
            &&& forall|i: int|
                0 <= i < packages.len() ==> lines[i + 2] == "      "@ + #[trigger] packages[i]
                    + " \\"@
            &&& lines.last() == " && rm -rf /var/lib/apt/lists/*"@
        }),
{
    reveal_strlit("apt-get update \\");
    reveal_strlit(" && apt-get install --no-install-recommends --yes \\");
    reveal_strlit(" && rm -rf /var/lib/apt/lists/*");
    reveal_strlit(" \\\n && rm -rf /var/lib/apt/lists/*");
    reveal_strlit("      ");
    reveal_strlit(" \\");
    let n = packages.len() as int;
    let newline = seq!['\n'];
    let line = |p: Seq<char>| "      "@ + p + " \\"@;
    let two = seq![
        "apt-get update \\"@,
        " && apt-get install --no-install-recommends --yes \\"@,
    ];
    let most = two + packages.take(n).map_values(line);
    let last = " && rm -rf /var/lib/apt/lists/*"@;
    let all = most.push(last);
    lemma_package_script(packages, n);
    assert(packages.take(n) =~= packages);
    assert(all.drop_last() =~= most);
    assert(text::join(all, newline) == text::join(most, newline) + newline + last);
    assert(" \\"@ + newline + last =~= " \\\n && rm -rf /var/lib/apt/lists/*"@);
    assert(installing(packages).script =~= text::join(all, newline));
    assert forall|i: int| 0 <= i < all.len() implies !(#[trigger] all[i]).contains('\n') by {
        if 2 <= i < n + 2 {
            assert(all[i] == "      "@ + packages[i - 2] + " \\"@);
            assert(!packages[i - 2].contains('\n'));
            assert forall|c: int| 0 <= c < all[i].len() implies all[i][c] != '\n' by {
                if 6 <= c < 6 + packages[i - 2].len() {
                    assert(all[i][c] == packages[i - 2][c - 6]);
                }
            }
        }
    }
    text::lemma_split_join(all, '\n');
    assert forall|i: int| 0 <= i < packages.len() implies all[i + 2] == "      "@
        + #[trigger] packages[i] + " \\"@ by {}
}

/// Every line that the manifest declares is the script of a step of its own, in
/// order: those of root first, as root, then those of the session's user, as that
/// user. Besides those and the packages the project's image has no step.
pub proof fn law_every_declared_line_is_a_step(session: &Session, cache: bool)
    requires
        session.builds(cache).len() == 2,
    ensures
        match session.builds(cache)[1] {
            BuildCallView::Build(plan) => {
                let image = session.manifest.image;
                let from: int = if image.packages@.len() > 0 {
                    1
                } else {
                    0
                };
                let roots = image.run_as_root@.len() as int;
                &&& plan.steps.len() == from + roots + image.run@.len()
                &&& forall|i: int|
                    0 <= i < roots ==> plan.steps[from + i].script == (
                    #[trigger] image.run_as_root@[i])@ && plan.steps[from + i].user is None
                &&& forall|i: int|
                    0 <= i < image.run@.len() ==> plan.steps[from + roots + i].script == (
                    #[trigger] image.run@[i])@ && plan.steps[from + roots + i].user == Some(
                        session.assistant@,
                    )
            },
            _ => false,
        },
{
}

/// A build makes the base, under the manifest's name for it, and nothing else where
/// the manifest adds nothing; otherwise then the project's image on top of it. Both
/// are cached or not as asked.
pub proof fn law_a_build_makes_the_base_then_the_projects_image(session: &Session, cache: bool)
    ensures
        ({
            let image = session.manifest.image;
            let plain = image.packages@.len() == 0 && image.run@.len() == 0
                && image.run_as_root@.len() == 0;
            &&& session.builds(cache).len() == (if plain {
                1int
            } else {
                2int
            })
            &&& match session.builds(cache)[0] {
                BuildCallView::Build(plan) => plan.tag == session.manifest.project.image@
                    && plan.base == "docker.io/library/debian:stable-slim"@ && plan.cache == cache,
                _ => false,
            }
            &&& !plain ==> match session.builds(cache)[1] {
                BuildCallView::Build(plan) => plan.tag == session.to_run().image && plan.base
                    == session.manifest.project.image@ && plan.cache == cache,
                _ => false,
            }
        }),
{
}

/// The base has the tools that every session relies on, and its steps install them,
/// the assistant and the guest scripts before they create the session's user.
pub proof fn law_the_base_has_its_tools(session: &Session, cache: bool, i: int)
    requires
        0 <= i < 10,
    ensures
        ({
            let steps = session.base_image(cache).steps;
            let tools = seq![
                "ca-certificates"@,
                "curl"@,
                "git"@,
                "jq"@,
                "less"@,
                "openssh-client"@,
                "procps"@,
                "ripgrep"@,
                "socat"@,
                "unzip"@,
            ];
            &&& steps.len() == 4
            &&& text::contains_text(steps[0].script, "\n      "@ + tools[i] + " \\\n"@)
            &&& steps[1].script == assistant::install_script(session.assistant@)
            &&& steps[3].script == assistant::account_script(session.assistant@)
        }),
{
    lemma_package_line(base_packages(), i);
}

/// Every guest script is installed from the build's context, under its own name,
/// and the clipboard's under that of each tool it stands for.
pub proof fn law_every_guest_script_is_installed(session: &Session, cache: bool, i: int)
    requires
        0 <= i < GUEST_SCRIPTS@.len(),
    ensures
        ({
            let script = session.base_image(cache).steps[2].script;
            let mounts = session.base_image(cache).mounts;
            let name = GUEST_SCRIPTS@[i]@;
            &&& text::contains_text(
                script,
                "install -m 755 /mnt/compostbin-context/"@ + name + " /usr/local/bin/"@ + name,
            )
            &&& text::contains_text(script, "for tool in pbcopy wl-copy xclip xsel; do"@)
            &&& mounts.len() == 1 && mounts[0].destination == "/mnt/compostbin-context"@
                && mounts[0].source == session.build_context() && mounts[0].readonly
        }),
{
    let script = session.base_image(cache).steps[2].script;
    let a = install("compostbin-host"@);
    let b = install("compostbin-clipboard"@);
    let c = install("compostbin-ports"@);
    let and = " \\\n && "@;
    let links = " \\\n && for tool in pbcopy wl-copy xclip xsel; do \\\n      ln -s compostbin-clipboard \"/usr/local/bin/$tool\"; \\\n    done"@;
    assert(script == a + and + b + and + c + links);
    assert(script.subrange(0, 0 + a.len() as int) =~= a);
    let second = (a + and).len() as int;
    assert(script.subrange(second, second + b.len()) =~= b);
    let third = (a + and + b + and).len() as int;
    assert(script.subrange(third, third + c.len()) =~= c);
    reveal_strlit("for tool in pbcopy wl-copy xclip xsel; do");
    reveal_strlit(
        " \\\n && for tool in pbcopy wl-copy xclip xsel; do \\\n      ln -s compostbin-clipboard \"/usr/local/bin/$tool\"; \\\n    done",
    );
    let tools = "for tool in pbcopy wl-copy xclip xsel; do"@;
    let at = (a + and + b + and + c).len() as int + 7;
    assert(script.subrange(at, at + tools.len()) =~= tools);
}

/// Both images are this tool's own, built at the builder's size whatever the session's
/// is, and cached as asked. The base is a Debian with the assistant's home in its
/// environment and the scripts staged beside it, read-only; the project's is made of
/// the base and nothing from the host.
pub proof fn law_images_are_made_of_what_they_should_be(session: &Session, cache: bool)
    ensures
        ({
            let base = session.base_image(cache);
            let own = session.project_image(cache);
            &&& base.base == "docker.io/library/debian:stable-slim"@
            &&& base.tag == session.manifest.project.image@
            &&& own.base == base.tag
            &&& own.tag == session.image_name()
            &&& base.cache == cache && own.cache == cache
            &&& base.resources == own.resources
            &&& base.resources.cpus == 4
            &&& base.resources.memory_in_bytes == 8589934592
            &&& base.labels.len() == 1 && own.labels == base.labels
            &&& base.labels[0].key == "dev.compostbin.built-by"@
            &&& base.environment == seq![
                assistant::home_variable(session.assistant@) + "="@ + assistant::guest_home(
                    session.assistant@,
                ),
            ]
            &&& own.environment.len() == 0
            &&& base.mounts.len() == 1 && base.mounts[0].readonly
            &&& base.mounts[0].destination == "/mnt/compostbin-context"@
            &&& base.mounts[0].source == paths::joined(
                paths::joined(session.resolver.home@, ".cache/compostbin/build"@),
                "base"@,
            )
            &&& own.mounts.len() == 0
            &&& base.workdir == Some("/workspace"@)
            &&& own.workdir == Some(assistant::user_home(session.assistant@))
        }),
{
    reveal_strlit("~/.cache/compostbin/build");
    reveal_strlit(".cache/compostbin/build");
    let raw = "~/.cache/compostbin/build"@;
    assert(raw.skip(2) =~= ".cache/compostbin/build"@);
    assert(seq!['~', '/'] =~= raw.subrange(0, 2));
}

} // verus!

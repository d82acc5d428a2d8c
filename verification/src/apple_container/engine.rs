//! Driving the `container` tool: what each request invokes, and what becomes of
//! what the tool did.
use crate::apple_container::error::{EngineError, EngineErrorView, Exit};
use crate::apple_container::model;
use crate::apple_container::model::{
    BuildSpec, BuildSpecView, ExecSpec, ExecSpecView, RunSpec, RunSpecView,
};
use crate::apple_container::parse;
use crate::engine::model::copy_text;
use crate::paths::PathBuf;
use crate::text;
use vstd::prelude::*;

verus! {

// ---------------------------------------------------------------------------
// Requests
// ---------------------------------------------------------------------------

/// Something asked of the tool.
#[derive(Debug, PartialEq)]
pub enum Call {
    Build(BuildSpec),
    Containers,
    Delete(String),
    Exec(ExecSpec),
    Images,
    Run(RunSpec),
    RunningContainers,
    StartBuilder(Option<String>),
    Stop(String),
    Version,
}

/// A `Call`, its texts as sequences of characters.
pub enum CallView {
    Build(BuildSpecView),
    Containers,
    Delete(Seq<char>),
    Exec(ExecSpecView),
    Images,
    Run(RunSpecView),
    RunningContainers,
    StartBuilder(Option<Seq<char>>),
    Stop(Seq<char>),
    Version,
}

impl View for Call {
    type V = CallView;

    open spec fn view(&self) -> CallView {
        match self {
            Call::Build(spec) => CallView::Build(spec@),
            Call::Containers => CallView::Containers,
            Call::Delete(name) => CallView::Delete(name@),
            Call::Exec(spec) => CallView::Exec(spec@),
            Call::Images => CallView::Images,
            Call::Run(spec) => CallView::Run(spec@),
            Call::RunningContainers => CallView::RunningContainers,
            Call::StartBuilder(memory) => CallView::StartBuilder(text::view_of(*memory)),
            Call::Stop(name) => CallView::Stop(name@),
            Call::Version => CallView::Version,
        }
    }
}

impl CallView {
    /// What the tool is called with.
    pub open spec fn argv(self) -> Seq<Seq<char>> {
        match self {
            CallView::Build(spec) => spec.argv(),
            CallView::Containers => seq!["ls"@, "--all"@, "--quiet"@],
            CallView::Delete(name) => seq!["delete"@, name],
            CallView::Exec(spec) => spec.argv(),
            CallView::Images => seq!["image"@, "ls"@, "--quiet"@],
            CallView::Run(spec) => spec.argv(),
            CallView::RunningContainers => seq!["ls"@, "--quiet"@],
            CallView::StartBuilder(memory) => seq!["builder"@, "start"@] + model::option(
                "--memory"@,
                memory,
            ),
            CallView::Stop(name) => seq!["stop"@, name],
            CallView::Version => seq!["--version"@],
        }
    }

    /// Whether the tool keeps the caller's terminal, so that long-running output
    /// reaches it as it happens, instead of being captured.
    pub open spec fn is_attached(self) -> bool {
        self is Build || self is Exec
    }
}

impl Call {
    /// What the tool is called with.
    pub fn argv(&self) -> (r: Vec<String>)
        ensures
            text::views(r@) == self@.argv(),
    {
        let argv = match self {
            Call::Build(spec) => spec.to_argv(),
            Call::Containers => model::words(&["ls", "--all", "--quiet"]),
            Call::Delete(name) => model::words(&["delete", name.as_str()]),
            Call::Exec(spec) => spec.to_argv(),
            Call::Images => model::words(&["image", "ls", "--quiet"]),
            Call::Run(spec) => spec.to_argv(),
            Call::RunningContainers => model::words(&["ls", "--quiet"]),
            Call::StartBuilder(memory) => match memory {
                Some(size) => model::words(&["builder", "start", "--memory", size.as_str()]),
                None => model::words(&["builder", "start"]),
            },
            Call::Stop(name) => model::words(&["stop", name.as_str()]),
            Call::Version => model::words(&["--version"]),
        };
        assert(text::views(argv@) =~= self@.argv());
        argv
    }

    /// Whether the tool keeps the caller's terminal.
    pub fn attached(&self) -> (r: bool)
        ensures
            r == self@.is_attached(),
    {
        match self {
            Call::Build(_) => true,
            Call::Exec(_) => true,
            _ => false,
        }
    }
}

impl Clone for Call {
    fn clone(&self) -> (r: Self)
        ensures
            r@ == self@,
    {
        match self {
            Call::Build(spec) => Call::Build(spec.clone()),
            Call::Containers => Call::Containers,
            Call::Delete(name) => Call::Delete(name.clone()),
            Call::Exec(spec) => Call::Exec(spec.clone()),
            Call::Images => Call::Images,
            Call::Run(spec) => Call::Run(spec.clone()),
            Call::RunningContainers => Call::RunningContainers,
            Call::StartBuilder(memory) => Call::StartBuilder(copy_text(memory)),
            Call::Stop(name) => Call::Stop(name.clone()),
            Call::Version => Call::Version,
        }
    }
}

// ---------------------------------------------------------------------------
// The tool
// ---------------------------------------------------------------------------

/// Drives the `container` tool as a subprocess.
#[derive(Debug, PartialEq)]
pub struct CliEngine {
    pub program: PathBuf,
}

impl CliEngine {
    pub fn new() -> (r: Self)
        ensures
            r.program@ == "container"@,
    {
        CliEngine::with_program(PathBuf::from("container"))
    }

    pub fn with_program(program: PathBuf) -> (r: Self)
        ensures
            r.program == program,
    {
        CliEngine { program }
    }
}

impl Default for CliEngine {
    fn default() -> (r: Self)
        ensures
            r.program@ == "container"@,
    {
        CliEngine::new()
    }
}

/// Drives the tool as a subprocess, to build images: the one thing only it can do.
#[derive(Debug, PartialEq)]
pub struct CliBuilder {
    pub program: PathBuf,
}

impl CliBuilder {
    pub fn new() -> (r: Self)
        ensures
            r.program@ == "container"@,
    {
        CliBuilder::with_program(PathBuf::from("container"))
    }

    pub fn with_program(program: PathBuf) -> (r: Self)
        ensures
            r.program == program,
    {
        CliBuilder { program }
    }
}

impl Default for CliBuilder {
    fn default() -> (r: Self)
        ensures
            r.program@ == "container"@,
    {
        CliBuilder::new()
    }
}

/// What a command whose output is captured did.
#[derive(Debug, PartialEq)]
pub enum Ran {
    /// It could not be started, and why.
    NotStarted(String),
    Succeeded { stdout: String },
    Failed { status: Exit, stderr: String },
}

/// What is captured of a command: what it printed, trimmed, or its failure.
pub fn capture(argv: Vec<String>, ran: Ran) -> (r: Result<String, EngineError>)
    ensures
        match ran {
            Ran::NotStarted(source) => r == Err::<String, EngineError>(
                EngineError::Spawn { argv, source },
            ),
            Ran::Succeeded { stdout } => r is Ok && r->Ok_0@ == text::trim(stdout@),
            Ran::Failed { status, stderr } => r == Err::<String, EngineError>(
                EngineError::Failed { argv, status, stderr },
            ),
        },
{
    match ran {
        Ran::NotStarted(source) => Err(EngineError::Spawn { argv, source }),
        Ran::Succeeded { stdout } => Ok(text::trimmed(stdout.as_str())),
        Ran::Failed { status, stderr } => Err(EngineError::Failed { argv, status, stderr }),
    }
}

/// The names that a listing captured.
pub fn container_names(argv: Vec<String>, ran: Ran) -> (r: Result<Vec<String>, EngineError>)
    ensures
        match ran {
            Ran::NotStarted(source) => r == Err::<Vec<String>, EngineError>(
                EngineError::Spawn { argv, source },
            ),
            Ran::Succeeded { stdout } => r is Ok && text::views(r->Ok_0@) == parse::names_in(
                text::lines(text::trim(stdout@)),
            ),
            Ran::Failed { status, stderr } => r == Err::<Vec<String>, EngineError>(
                EngineError::Failed { argv, status, stderr },
            ),
        },
{
    match capture(argv, ran) {
        Ok(stdout) => Ok(parse::names(stdout.as_str())),
        Err(error) => Err(error),
    }
}

/// The version that the tool printed.
pub fn tool_version(argv: Vec<String>, ran: Ran) -> (r: Result<Option<String>, EngineError>)
    ensures
        match ran {
            Ran::NotStarted(source) => r == Err::<Option<String>, EngineError>(
                EngineError::Spawn { argv, source },
            ),
            Ran::Succeeded { stdout } => r is Ok && text::view_of(r->Ok_0) == parse::version_among(
                text::words(text::trim(stdout@)),
                0,
            ),
            Ran::Failed { status, stderr } => r == Err::<Option<String>, EngineError>(
                EngineError::Failed { argv, status, stderr },
            ),
        },
{
    match capture(argv, ran) {
        Ok(stdout) => Ok(parse::cli_version(stdout.as_str())),
        Err(error) => Err(error),
    }
}

/// What becomes of a command that kept the caller's terminal: its exit code, or
/// -1 where a signal ended it, or that it could not be started.
pub fn passthrough(argv: Vec<String>, exited: Result<Option<i32>, String>) -> (r: Result<
    i32,
    EngineError,
>)
    ensures
        r == (match exited {
            Ok(Some(code)) => Ok::<i32, EngineError>(code),
            Ok(None) => Ok::<i32, EngineError>(-1i32),
            Err(source) => Err::<i32, EngineError>(EngineError::Spawn { argv, source }),
        }),
{
    match exited {
        Ok(Some(code)) => Ok(code),
        Ok(None) => Ok(-1),
        Err(source) => Err(EngineError::Spawn { argv, source }),
    }
}

// ---------------------------------------------------------------------------
// Engines and builders
// ---------------------------------------------------------------------------

/// What an engine can answer.
pub enum ReplyView {
    Code(Result<i32, EngineErrorView>),
    Done(Result<(), EngineErrorView>),
    Id(Result<Seq<char>, EngineErrorView>),
    Names(Result<Seq<Seq<char>>, EngineErrorView>),
    Version(Result<Option<Seq<char>>, EngineErrorView>),
}

/// An exit code, or why there is none, as a reply.
pub open spec fn code(r: Result<i32, EngineError>) -> ReplyView {
    ReplyView::Code(
        match r {
            Ok(code) => Ok(code),
            Err(error) => Err(error@),
        },
    )
}

/// That something was done, or why not, as a reply.
pub open spec fn done(r: Result<(), EngineError>) -> ReplyView {
    ReplyView::Done(
        match r {
            Ok(()) => Ok(()),
            Err(error) => Err(error@),
        },
    )
}

/// The id of a container, or why there is none, as a reply.
pub open spec fn id(r: Result<String, EngineError>) -> ReplyView {
    ReplyView::Id(
        match r {
            Ok(id) => Ok(id@),
            Err(error) => Err(error@),
        },
    )
}

/// Names, or why there are none, as a reply.
pub open spec fn listing(r: Result<Vec<String>, EngineError>) -> ReplyView {
    ReplyView::Names(
        match r {
            Ok(names) => Ok(text::views(names@)),
            Err(error) => Err(error@),
        },
    )
}

/// A version, or why there is none, as a reply.
pub open spec fn release(r: Result<Option<String>, EngineError>) -> ReplyView {
    ReplyView::Version(
        match r {
            Ok(version) => Ok(text::view_of(version)),
            Err(error) => Err(error@),
        },
    )
}

/// What runs containers through a daemon, which keeps them when this process
/// ends. An engine keeps, as `log`, what it was asked for and what it answered,
/// in order. One that is not verified keeps none: what is proved through this trait
/// is not shown of it.
pub trait Engine {
    open spec fn log(&self) -> Seq<(CallView, ReplyView)> {
        Seq::empty()
    }

    /// Every container the daemon knows, running or not.
    fn containers(&mut self) -> (r: Result<Vec<String>, EngineError>)
        ensures
            final(self).log() == old(self).log().push((CallView::Containers, listing(r))),
    ;

    fn delete(&mut self, name: &str) -> (r: Result<(), EngineError>)
        ensures
            final(self).log() == old(self).log().push((CallView::Delete(name@), done(r))),
    ;

    /// Runs a command in a live container, inheriting our stdio so an interactive
    /// session keeps the real terminal.
    fn exec(&mut self, spec: &ExecSpec) -> (r: Result<i32, EngineError>)
        ensures
            final(self).log() == old(self).log().push((CallView::Exec(spec@), code(r))),
    ;

    /// Every image the daemon holds, as `name:tag`. Fails when the daemon is not
    /// running: plugins are unavailable until `container system start`.
    fn images(&mut self) -> (r: Result<Vec<String>, EngineError>)
        ensures
            final(self).log() == old(self).log().push((CallView::Images, listing(r))),
    ;

    /// Starts a container and returns its id.
    fn run(&mut self, spec: &RunSpec) -> (r: Result<String, EngineError>)
        ensures
            final(self).log() == old(self).log().push((CallView::Run(spec@), id(r))),
    ;

    /// Only the containers that are running, and so ready for `exec`.
    fn running_containers(&mut self) -> (r: Result<Vec<String>, EngineError>)
        ensures
            final(self).log() == old(self).log().push((CallView::RunningContainers, listing(r))),
    ;

    fn stop(&mut self, name: &str) -> (r: Result<(), EngineError>)
        ensures
            final(self).log() == old(self).log().push((CallView::Stop(name@), done(r))),
    ;

    /// The tool's own version. `None` when the output does not look like a
    /// version, which `doctor` reports rather than treating as a failure.
    fn version(&mut self) -> (r: Result<Option<String>, EngineError>)
        ensures
            final(self).log() == old(self).log().push((CallView::Version, release(r))),
    ;
}

/// What builds images. Not part of `Engine`: a builder is not a session, and a
/// session never builds. A builder keeps a `log`, as an engine does.
pub trait Builder {
    open spec fn log(&self) -> Seq<(CallView, ReplyView)> {
        Seq::empty()
    }

    /// Builds an image, streaming the build log to our stdio. Returns the exit
    /// code.
    fn build(&mut self, spec: &BuildSpec) -> (r: Result<i32, EngineError>)
        ensures
            final(self).log() == old(self).log().push((CallView::Build(spec@), code(r))),
    ;

    /// Starts the builder container `build` needs, succeeding when it is already
    /// up. Sized explicitly because the 2 GB default is too little to install
    /// the assistant.
    fn start_builder(&mut self, memory: Option<&str>) -> (r: Result<(), EngineError>)
        ensures
            final(self).log() == old(self).log().push(
                (
                    CallView::StartBuilder(
                        match memory {
                            Some(size) => Some(size@),
                            None => None,
                        },
                    ),
                    done(r),
                ),
            ),
    ;
}

/// Each call is one command of the tool, and names what it is about.
pub proof fn law_every_call_is_its_own_command(
    name: Seq<char>,
    size: Seq<char>,
    build: model::BuildSpecView,
    exec: model::ExecSpecView,
    run: model::RunSpecView,
)
    ensures
        CallView::Containers.argv() == seq!["ls"@, "--all"@, "--quiet"@],
        CallView::RunningContainers.argv() == seq!["ls"@, "--quiet"@],
        CallView::Images.argv() == seq!["image"@, "ls"@, "--quiet"@],
        CallView::Delete(name).argv() == seq!["delete"@, name],
        CallView::Stop(name).argv() == seq!["stop"@, name],
        CallView::Version.argv() == seq!["--version"@],
        CallView::StartBuilder(Some(size)).argv() == seq![
            "builder"@,
            "start"@,
            "--memory"@,
            size,
        ],
        CallView::StartBuilder(None).argv() == seq!["builder"@, "start"@],
        CallView::Build(build).argv() == build.argv(),
        CallView::Exec(exec).argv() == exec.argv(),
        CallView::Run(run).argv() == run.argv(),
        CallView::Build(build).is_attached() && CallView::Exec(exec).is_attached(),
        !CallView::Run(run).is_attached() && !CallView::Stop(name).is_attached(),
{
    assert(CallView::StartBuilder(Some(size)).argv() =~= seq![
        "builder"@,
        "start"@,
        "--memory"@,
        size,
    ]);
    assert(CallView::StartBuilder(None).argv() =~= seq!["builder"@, "start"@]);
}

/// What the tool captured is what it printed, without the white space around it; a
/// command that kept the terminal comes to its own code. Either says what was called
/// where it could not be.
pub proof fn law_the_tools_outcome_is_handed_on(
    argv: Vec<String>,
    ran: Ran,
    captured: Result<String, EngineError>,
    exited: Result<Option<i32>, String>,
    passed: Result<i32, EngineError>,
)
    requires
        call_ensures(capture, (argv, ran), captured),
        call_ensures(passthrough, (argv, exited), passed),
    ensures
        captured is Ok <==> ran is Succeeded,
        ran matches Ran::Succeeded { stdout } ==> captured->Ok_0@ == text::trim(stdout@),
        exited matches Ok(Some(code)) ==> passed == Ok::<i32, EngineError>(code),
        passed is Err <==> exited is Err,
        exited matches Ok(None) ==> passed->Ok_0 < 0,
{
}

} // verus!

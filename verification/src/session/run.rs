//! Running a session: what happens, in which order, from the token in the assistant's
//! home to the assistant's exit code.
//!
//! What touches the host (the files, the sockets, the engine, the terminal) is
//! the caller's. `begin` and `advance` say what it has to do next, and it says
//! what came of that.
use crate::assistant;
use crate::assistant::Assistant;
use crate::engine::error::EngineError;
use crate::engine::model::{copy_text, ExecSpec, ExecSpecView, MountView, RunSpec, RunSpecView};
use crate::error::{CredentialError, ManifestError, PathError, SessionError};
use crate::host::ports;
use crate::host::ports::{Forward, ForwardView, PortEvent};
use crate::host::spool::Spool;
use crate::paths;
use crate::paths::PathBuf;
use crate::session::briefing;
use crate::session::briefing::{Written, WrittenView};
use crate::session::credentials::SeedOutcome;
use crate::session::record::Record;
use crate::session::settings;
use crate::session::Session;
use crate::text;
use vstd::prelude::*;

verus! {

// ---------------------------------------------------------------------------
// What a session says
// ---------------------------------------------------------------------------

/// What a session has to say as it starts, runs, and ends, left to the caller to
/// print: the library does not own the terminal.
///
/// Port events only arrive here until the assistant is attached. After that the
/// terminal is the assistant's, and the relay writes to `ports_log` instead.
#[derive(Debug, PartialEq)]
pub enum Notice {
    /// The assistant's home had no token, and the Keychain had none to seed it with.
    NotInKeychain,
    /// What was copied from the host's own assistant home. Never empty.
    Shared(Vec<String>),
    Port(PortEvent),
    /// This image's first run, which unpacks it before the container can start.
    Unpacking(String),
    /// A `[container] setup` line exited non-zero, so the assistant was not started.
    SetupFailed { line: String, code: i32 },
    /// The host command agent gave up; the session carries on without it.
    AgentStopped(PathError),
    /// The spool could not be emptied after the assistant exited.
    CleanupFailed(PathError),
}

/// A `Notice`, its texts as sequences of characters.
pub enum NoticeView {
    NotInKeychain,
    Shared(Seq<Seq<char>>),
    Port(PortEvent),
    Unpacking(Seq<char>),
    SetupFailed { line: Seq<char>, code: i32 },
    AgentStopped(PathError),
    CleanupFailed(PathError),
}

impl View for Notice {
    type V = NoticeView;

    open spec fn view(&self) -> NoticeView {
        match self {
            Notice::NotInKeychain => NoticeView::NotInKeychain,
            Notice::Shared(names) => NoticeView::Shared(text::views(names@)),
            Notice::Port(event) => NoticeView::Port(*event),
            Notice::Unpacking(image) => NoticeView::Unpacking(image@),
            Notice::SetupFailed { line, code } => NoticeView::SetupFailed {
                line: line@,
                code: *code,
            },
            Notice::AgentStopped(error) => NoticeView::AgentStopped(*error),
            Notice::CleanupFailed(error) => NoticeView::CleanupFailed(*error),
        }
    }
}

// ---------------------------------------------------------------------------
// What has to happen, and what came of it
// ---------------------------------------------------------------------------

/// How far a session has come. Each stage waits for one kind of event.
#[derive(Debug, PartialEq)]
pub enum Stage {
    Seeding,
    Sharing,
    /// Finding out whether there is a container to join.
    Asking,
    /// Attached to a container that another `run` created.
    Joining,
    Spooling,
    Binding,
    Unpacking,
    Briefing,
    Sweeping,
    Creating,
    Recording,
    Serving,
    /// Running the setup line of that index.
    SettingUp(usize),
    Attached,
    /// The assistant has gone, or never came; the agent and the relay are going.
    Stopping(Result<i32, SessionError>),
    Cleaning(i32),
    Done,
}

/// What has to happen next.
#[derive(Debug, PartialEq)]
pub enum Action {
    /// Seed the token into the assistant's home, where that is asked for.
    Seed { home: PathBuf, enabled: bool },
    /// Copy what there is of these names from one assistant home into the other.
    Share { from: PathBuf, to: PathBuf, names: Vec<String> },
    IsRunning(String),
    Exec(ExecSpec),
    /// Create these directories.
    Create(Vec<PathBuf>),
    /// Bind every socket, or none.
    Bind(Vec<Forward>),
    IsUnpacked(String),
    /// Write these files, creating the directory they are in.
    Write(Vec<Written>),
    Sweep(Spool),
    Run(RunSpec),
    /// Write the record there.
    Record { path: PathBuf, record: Record },
    /// Start the host command agent and the port relay beside the session, each
    /// where there is something to serve.
    Serve { spool: Option<Spool>, relay: bool, log: PathBuf },
    /// Stop both, and wait for them.
    Stop,
    /// Empty the spool there, if there is one.
    Empty(PathBuf),
    /// There is nothing left to do.
    Finish(Result<i32, SessionError>),
    /// The event did not belong to the stage, which still waits for its own.
    Wait,
}

/// An `Action`, its texts as sequences of characters.
pub enum ActionView {
    Seed { home: Seq<char>, enabled: bool },
    Share { from: Seq<char>, to: Seq<char>, names: Seq<Seq<char>> },
    IsRunning(Seq<char>),
    Exec(ExecSpecView),
    Create(Seq<Seq<char>>),
    Bind(Seq<ForwardView>),
    IsUnpacked(Seq<char>),
    Write(Seq<WrittenView>),
    Sweep(Seq<char>),
    Run(RunSpecView),
    Record { path: Seq<char>, mounts: Seq<MountView> },
    Serve { spool: Option<Seq<char>>, relay: bool, log: Seq<char> },
    Stop,
    Empty(Seq<char>),
    Finish(Result<i32, SessionError>),
    Wait,
}

impl View for Action {
    type V = ActionView;

    open spec fn view(&self) -> ActionView {
        match self {
            Action::Seed { home, enabled } => ActionView::Seed { home: home@, enabled: *enabled },
            Action::Share { from, to, names } => ActionView::Share {
                from: from@,
                to: to@,
                names: text::views(names@),
            },
            Action::IsRunning(name) => ActionView::IsRunning(name@),
            Action::Exec(spec) => ActionView::Exec(spec@),
            Action::Create(directories) => ActionView::Create(text::views(directories@)),
            Action::Bind(forwards) => ActionView::Bind(text::views(forwards@)),
            Action::IsUnpacked(image) => ActionView::IsUnpacked(image@),
            Action::Write(files) => ActionView::Write(text::views(files@)),
            Action::Sweep(spool) => ActionView::Sweep(spool.root@),
            Action::Run(spec) => ActionView::Run(spec@),
            Action::Record { path, record } => ActionView::Record {
                path: path@,
                mounts: text::views(record.mounts@),
            },
            Action::Serve { spool, relay, log } => ActionView::Serve {
                spool: match spool {
                    Some(spool) => Some(spool.root@),
                    None => None,
                },
                relay: *relay,
                log: log@,
            },
            Action::Stop => ActionView::Stop,
            Action::Empty(path) => ActionView::Empty(path@),
            Action::Finish(result) => ActionView::Finish(*result),
            Action::Wait => ActionView::Wait,
        }
    }
}

/// What came of an action.
#[derive(Debug, PartialEq)]
pub enum Event {
    Seeded(Result<SeedOutcome, CredentialError>),
    /// What was copied.
    Shared(Result<Vec<String>, PathError>),
    Running(Result<bool, EngineError>),
    Exited(Result<i32, EngineError>),
    Unpacked(Result<bool, EngineError>),
    Ran(Result<(), EngineError>),
    Recorded(Result<(), ManifestError>),
    /// A change to files or sockets was made, or was not.
    Changed(Result<(), PathError>),
    /// The agent and the relay are up.
    Serving,
    /// They are gone.
    Stopped,
}

/// Where a session is, what it says, and what has to happen.
#[derive(Debug, PartialEq)]
pub struct Turn {
    pub stage: Stage,
    pub notice: Option<Notice>,
    pub action: Action,
}

/// A `Turn`, its texts as sequences of characters.
pub struct TurnView {
    pub stage: Stage,
    pub notice: Option<NoticeView>,
    pub action: ActionView,
}

impl View for Turn {
    type V = TurnView;

    open spec fn view(&self) -> TurnView {
        TurnView {
            stage: self.stage,
            notice: text::view_of(self.notice),
            action: self.action@,
        }
    }
}

// ---------------------------------------------------------------------------
// The course of a session
// ---------------------------------------------------------------------------

/// A turn that says nothing.
pub open spec fn quietly(stage: Stage, action: ActionView) -> TurnView {
    TurnView { stage, notice: None, action }
}

/// A session that is over.
pub open spec fn over(result: Result<i32, SessionError>) -> TurnView {
    quietly(Stage::Done, ActionView::Finish(result))
}

/// A process to attach to the session.
#[derive(Debug, PartialEq, Eq)]
pub struct Process {
    pub arguments: Vec<String>,
    /// Whether it wants the caller's terminal.
    pub tty: bool,
    /// The guest user, as the image names it. `None` is the image's default.
    pub user: Option<String>,
}

/// A `Process`, its texts as sequences of characters.
#[verifier::ext_equal]
pub struct ProcessView {
    pub arguments: Seq<Seq<char>>,
    pub tty: bool,
    pub user: Option<Seq<char>>,
}

impl View for Process {
    type V = ProcessView;

    open spec fn view(&self) -> ProcessView {
        ProcessView {
            arguments: text::views(self.arguments@),
            tty: self.tty,
            user: text::view_of(self.user),
        }
    }
}

impl Process {
    /// The assistant, with whatever the caller passes through to it.
    pub fn claude(assistant: &Assistant, arguments: &Vec<String>) -> (r: Self)
        ensures
            r@ == (ProcessView {
                arguments: claude_with(assistant@, text::views(arguments@)),
                tty: true,
                user: None,
            }),
    {
        Process { arguments: claude(assistant, arguments), tty: true, user: None }
    }

    /// A command, as a guest user.
    pub fn command(argv: &Vec<String>, tty: bool, user: &str) -> (r: Self)
        ensures
            r@ == (ProcessView { arguments: text::views(argv@), tty, user: Some(user@) }),
    {
        let arguments = argv.clone();
        assert(arguments@ =~= argv@);
        Process { arguments, tty, user: Some(user.to_string()) }
    }
}

/// The assistant, with what is passed through to it.
pub open spec fn claude_with(name: Seq<char>, arguments: Seq<Seq<char>>) -> Seq<Seq<char>> {
    seq![name] + arguments
}

/// The shell that runs a setup line: the same as runs a build's.
pub open spec fn shell(line: Seq<char>) -> Seq<Seq<char>> {
    seq!["bash"@, "-euo"@, "pipefail"@, "-c"@, line]
}

impl Session {
    /// The setup lines of the manifest.
    pub open spec fn setup_lines(&self) -> Seq<Seq<char>> {
        text::views(self.manifest.container.setup@)
    }

    /// What is bound for the declared ports.
    pub open spec fn bindings(&self) -> Seq<ForwardView> {
        self.manifest.host.ports@.map_values(
            |port: u16| ports::loopback(self.kept("ports"@), port),
        )
    }

    /// The directories of the spool, where there is one.
    pub open spec fn spool_directories(&self) -> Seq<Seq<char>> {
        if self.manifest.host.serves_commands() {
            seq![
                paths::joined(self.kept("host"@), "requests"@),
                paths::joined(self.kept("host"@), "running"@),
                paths::joined(self.kept("host"@), "responses"@),
            ]
        } else {
            Seq::empty()
        }
    }

    /// The files that tell the session's assistant about itself.
    pub open spec fn told(&self) -> Seq<WrittenView> {
        seq![
            WrittenView {
                path: paths::joined(self.kept("managed"@), "managed-settings.json"@),
                contents: assistant::settings(self.assistant@),
            },
            WrittenView {
                path: paths::joined(self.kept("managed"@), "session-context.txt"@),
                contents: briefing::briefing_of(
                    self.manifest.host.serves_commands(),
                    self.manifest.host.commands@,
                ),
            },
        ]
    }

    /// A process, as it is attached to the container.
    pub open spec fn to_attach(&self, process: ProcessView) -> ExecSpecView {
        ExecSpecView {
            tty: process.tty,
            user: process.user,
            ..self.to_exec(process.arguments)
        }
    }

    /// The turn that starts a session.
    pub open spec fn first_turn(&self) -> TurnView {
        quietly(
            Stage::Seeding,
            ActionView::Seed {
                home: self.home(),
                enabled: self.manifest.claude.seed_from_keychain,
            },
        )
    }

    /// The turn that creates the container.
    pub open spec fn creation(&self) -> TurnView {
        quietly(Stage::Creating, ActionView::Run(self.to_run()))
    }

    /// The turn that attaches to the container: the next setup line, or the process.
    pub open spec fn attachment(&self, process: ProcessView, line: int) -> TurnView {
        if line < self.setup_lines().len() {
            quietly(
                Stage::SettingUp(line as usize),
                ActionView::Exec(self.to_exec(shell(self.setup_lines()[line]))),
            )
        } else {
            quietly(
                Stage::Attached,
                ActionView::Exec(self.to_attach(process)),
            )
        }
    }

    /// What follows when an event comes at a stage.
    pub open spec fn next_turn(
        &self,
        process: ProcessView,
        stage: Stage,
        event: Event,
    ) -> TurnView {
        match (stage, event) {
            (Stage::Seeding, Event::Seeded(seeded)) => match seeded {
                Err(error) => over(Err(SessionError::Credential(error))),
                Ok(outcome) => TurnView {
                    stage: Stage::Sharing,
                    notice: if outcome == SeedOutcome::NotInKeychain {
                        Some(NoticeView::NotInKeychain)
                    } else {
                        None
                    },
                    action: ActionView::Share {
                        from: self.resolver.leads_to(assistant::host_home(self.assistant@)),
                        to: self.home(),
                        names: settings::shared_names(
                            self.assistant@,
                            text::views(self.manifest.claude.shared@),
                        ),
                    },
                },
            },
            (Stage::Sharing, Event::Shared(shared)) => match shared {
                Err(error) => over(Err(SessionError::Io(error))),
                Ok(names) => TurnView {
                    stage: Stage::Asking,
                    notice: if names@.len() > 0 {
                        Some(NoticeView::Shared(text::views(names@)))
                    } else {
                        None
                    },
                    action: ActionView::IsRunning(self.container()),
                },
            },
            (Stage::Asking, Event::Running(running)) => match running {
                Err(error) => over(Err(SessionError::Engine(error))),
                Ok(true) => quietly(
                    Stage::Joining,
                    ActionView::Exec(self.to_attach(process)),
                ),
                Ok(false) => quietly(
                    Stage::Spooling,
                    ActionView::Create(self.spool_directories()),
                ),
            },
            (Stage::Joining, Event::Exited(exited)) => match exited {
                Err(error) => over(Err(SessionError::Engine(error))),
                Ok(code) => over(Ok(code)),
            },
            (Stage::Spooling, Event::Changed(changed)) => match changed {
                Err(error) => over(Err(SessionError::Io(error))),
                Ok(()) => quietly(Stage::Binding, ActionView::Bind(self.bindings())),
            },
            (Stage::Binding, Event::Changed(changed)) => match changed {
                Err(error) => over(Err(SessionError::Io(error))),
                Ok(()) => quietly(Stage::Unpacking, ActionView::IsUnpacked(self.image_name())),
            },
            (Stage::Unpacking, Event::Unpacked(unpacked)) => match unpacked {
                Err(error) => over(Err(SessionError::Engine(error))),
                Ok(already) => TurnView {
                    stage: Stage::Briefing,
                    notice: if already {
                        None
                    } else {
                        Some(NoticeView::Unpacking(self.image_name()))
                    },
                    action: ActionView::Write(self.told()),
                },
            },
            (Stage::Briefing, Event::Changed(changed)) => match changed {
                Err(error) => over(Err(SessionError::Io(error))),
                Ok(()) => if self.manifest.host.serves_commands() {
                    quietly(Stage::Sweeping, ActionView::Sweep(self.kept("host"@)))
                } else {
                    self.creation()
                },
            },
            (Stage::Sweeping, Event::Changed(changed)) => match changed {
                Err(error) => over(Err(SessionError::Io(error))),
                Ok(()) => self.creation(),
            },
            (Stage::Creating, Event::Ran(ran)) => match ran {
                Err(error) => over(Err(SessionError::Engine(error))),
                Ok(()) => quietly(
                    Stage::Recording,
                    ActionView::Record { path: self.kept("mounts.toml"@), mounts: self.mounted() },
                ),
            },
            (Stage::Recording, Event::Recorded(recorded)) => match recorded {
                Err(error) => over(Err(SessionError::Record(error))),
                Ok(()) => quietly(
                    Stage::Serving,
                    ActionView::Serve {
                        spool: if self.manifest.host.serves_commands() {
                            Some(self.kept("host"@))
                        } else {
                            None
                        },
                        relay: self.manifest.host.ports@.len() > 0,
                        log: self.kept("ports.log"@),
                    },
                ),
            },
            (Stage::Serving, Event::Serving) => self.attachment(process, 0),
            (Stage::SettingUp(line), Event::Exited(exited)) => match exited {
                Err(error) => quietly(
                    Stage::Stopping(Err(SessionError::Engine(error))),
                    ActionView::Stop,
                ),
                Ok(code) => if code == 0 {
                    self.attachment(process, line + 1)
                } else {
                    TurnView {
                        stage: Stage::Stopping(Ok(code)),
                        notice: if line < self.setup_lines().len() {
                            Some(
                                NoticeView::SetupFailed {
                                    line: self.setup_lines()[line as int],
                                    code,
                                },
                            )
                        } else {
                            None
                        },
                        action: ActionView::Stop,
                    }
                },
            },
            (Stage::Attached, Event::Exited(exited)) => match exited {
                Err(error) => quietly(
                    Stage::Stopping(Err(SessionError::Engine(error))),
                    ActionView::Stop,
                ),
                Ok(code) => quietly(Stage::Stopping(Ok(code)), ActionView::Stop),
            },
            (Stage::Stopping(result), Event::Stopped) => match result {
                Err(error) => over(Err(error)),
                Ok(code) => quietly(Stage::Cleaning(code), ActionView::Empty(self.kept("host"@))),
            },
            (Stage::Cleaning(code), Event::Changed(changed)) => TurnView {
                stage: Stage::Done,
                notice: match changed {
                    Err(error) => Some(NoticeView::CleanupFailed(error)),
                    Ok(()) => None,
                },
                action: ActionView::Finish(Ok(code)),
            },
            (_, _) => quietly(stage, ActionView::Wait),
        }
    }

    /// Where a session is once events have come, in order.
    pub open spec fn reached(&self, process: ProcessView, events: Seq<Event>) -> TurnView
        decreases events.len(),
    {
        if events.len() == 0 {
            self.first_turn()
        } else {
            self.next_turn(
                process,
                self.reached(process, events.drop_last()).stage,
                events.last(),
            )
        }
    }
}

// ---------------------------------------------------------------------------
// Running
// ---------------------------------------------------------------------------

fn turn(stage: Stage, action: Action) -> (r: Turn)
    ensures
        r@ == quietly(stage, action@),
{
    Turn { stage, notice: None, action }
}

fn finished(result: Result<i32, SessionError>) -> (r: Turn)
    ensures
        r@ == over(result),
{
    Turn { stage: Stage::Done, notice: None, action: Action::Finish(result) }
}

/// The assistant's program, then whatever the caller passes through to it.
fn claude(assistant: &Assistant, arguments: &Vec<String>) -> (r: Vec<String>)
    ensures
        text::views(r@) == claude_with(assistant@, text::views(arguments@)),
{
    let mut out: Vec<String> = Vec::new();
    out.push(assistant.name.clone());
    let mut i: usize = 0;
    while i < arguments.len()
        invariant
            i <= arguments@.len(),
            out@.len() == i + 1,
            out@[0]@ == assistant@,
            forall|j: int| 1 <= j <= i ==> (#[trigger] out@[j])@ == arguments@[j - 1]@,
        decreases arguments.len() - i,
    {
        out.push(arguments[i].clone());
        i = i + 1;
    }
    assert(text::views(out@) =~= claude_with(assistant@, text::views(arguments@)));
    out
}

fn in_shell(line: &str) -> (r: Vec<String>)
    ensures
        text::views(r@) == shell(line@),
{
    let mut out: Vec<String> = Vec::new();
    out.push("bash".to_string());
    out.push("-euo".to_string());
    out.push("pipefail".to_string());
    out.push("-c".to_string());
    out.push(line.to_string());
    assert(text::views(out@) =~= shell(line@));
    out
}

impl Session {
    fn create(&self) -> (r: Turn)
        ensures
            r@ == self.creation(),
    {
        turn(Stage::Creating, Action::Run(self.run_spec()))
    }

    /// Runs `[container] setup` from a line on, then the assistant.
    ///
    /// Called once the host agent and relay are up, so a line may use them. Same
    /// shell as `[image] run`.
    fn set_up(&self, process: &Process, line: usize) -> (r: Turn)
        ensures
            r@ == self.attachment(process@, line as int),
    {
        if line < self.manifest.container.setup.len() {
            let command = in_shell(self.manifest.container.setup[line].as_str());
            turn(Stage::SettingUp(line), Action::Exec(self.exec_spec(&command)))
        } else {
            turn(Stage::Attached, Action::Exec(self.attach(process)))
        }
    }

    fn attach(&self, process: &Process) -> (r: ExecSpec)
        ensures
            r@ == self.to_attach(process@),
    {
        let mut spec = self.exec_spec(&process.arguments);
        spec.tty = process.tty;
        spec.user = copy_text(&process.user);
        assert(spec@ =~= self.to_attach(process@));
        spec
    }

    fn brief(&self) -> (r: Vec<Written>)
        ensures
            text::views(r@) == self.told(),
    {
        let (settings, context) = briefing::write(
            &self.assistant,
            &self.managed_settings(),
            &self.manifest,
        );
        let mut files: Vec<Written> = Vec::new();
        files.push(settings);
        files.push(context);
        assert(text::views(files@) =~= self.told());
        files
    }

    fn bind(&self) -> (r: Vec<Forward>)
        ensures
            text::views(r@) == self.bindings(),
    {
        let forwards = self.forwards();
        assert(text::views(forwards@) =~= self.bindings());
        forwards
    }

    /// Begins a session: attaches the assistant to its container, creating that first
    /// unless it is already running, and ends with the assistant's exit code.
    ///
    /// A second `run` joins the session rather than replacing it, and does
    /// nothing else: the host command agent, the port relay, and the cleanup on
    /// exit belong to the process that created the container. A joiner binding
    /// the sockets again would take them from the relay the container is using,
    /// and one cleaning up as it left would empty a spool still being served.
    ///
    /// Attaching leaves the record alone. It describes the running container, not
    /// the manifest as it reads now, and `doctor` checks the gap between them.
    pub fn run(&self) -> (r: Turn)
        ensures
            r@ == self.first_turn(),
    {
        turn(
            Stage::Seeding,
            Action::Seed {
                home: self.claude_home(),
                enabled: self.manifest.claude.seed_from_keychain,
            },
        )
    }

    /// What follows when an event comes at a stage. An event that does not belong
    /// to the stage changes nothing.
    ///
    /// The port sockets are bound before the container is created: each has to
    /// already be a socket when the container's relays are set up, and they are
    /// set up at creation. That an image is unpacked is said first: it is the slow
    /// part of a first run, and a silent wait looks like a hang. Every create
    /// mounts a briefing rendered from the manifest as it reads now. Every guest
    /// client that could still be waiting on a response died with the container
    /// this one replaces, so their leftovers are swept.
    ///
    /// The agent and the relay run beside the attach, and stop as soon as it
    /// returns. Emptying the spool then is best effort: a killed session leaves it
    /// behind, which is what `clean` is for.
    pub fn advance(&self, process: &Process, stage: Stage, event: Event) -> (r: Turn)
        ensures
            r@ == self.next_turn(process@, stage, event),
    {
        match (stage, event) {
            (Stage::Seeding, Event::Seeded(seeded)) => match seeded {
                Err(error) => finished(Err(SessionError::from(error))),
                Ok(outcome) => Turn {
                    stage: Stage::Sharing,
                    notice: if outcome == SeedOutcome::NotInKeychain {
                        Some(Notice::NotInKeychain)
                    } else {
                        None
                    },
                    action: Action::Share {
                        from: self.resolve(self.assistant.host_home().as_str()),
                        to: self.claude_home(),
                        names: settings::candidates(&self.assistant, &self.manifest.claude.shared),
                    },
                },
            },
            (Stage::Sharing, Event::Shared(shared)) => match shared {
                Err(error) => finished(Err(SessionError::from(error))),
                Ok(names) => Turn {
                    stage: Stage::Asking,
                    notice: if names.len() > 0 {
                        Some(Notice::Shared(names))
                    } else {
                        None
                    },
                    action: Action::IsRunning(self.container_name()),
                },
            },
            (Stage::Asking, Event::Running(running)) => match running {
                Err(error) => finished(Err(SessionError::from(error))),
                Ok(true) => turn(
                    Stage::Joining,
                    Action::Exec(self.attach(process)),
                ),
                Ok(false) => turn(Stage::Spooling, Action::Create(self.prepare_host_spool())),
            },
            (Stage::Joining, Event::Exited(exited)) => match exited {
                Err(error) => finished(Err(SessionError::from(error))),
                Ok(code) => finished(Ok(code)),
            },
            (Stage::Spooling, Event::Changed(changed)) => match changed {
                Err(error) => finished(Err(SessionError::from(error))),
                Ok(()) => turn(Stage::Binding, Action::Bind(self.bind())),
            },
            (Stage::Binding, Event::Changed(changed)) => match changed {
                Err(error) => finished(Err(SessionError::from(error))),
                Ok(()) => turn(Stage::Unpacking, Action::IsUnpacked(self.image())),
            },
            (Stage::Unpacking, Event::Unpacked(unpacked)) => match unpacked {
                Err(error) => finished(Err(SessionError::from(error))),
                Ok(already) => Turn {
                    stage: Stage::Briefing,
                    notice: if already {
                        None
                    } else {
                        Some(Notice::Unpacking(self.image()))
                    },
                    action: Action::Write(self.brief()),
                },
            },
            (Stage::Briefing, Event::Changed(changed)) => match changed {
                Err(error) => finished(Err(SessionError::from(error))),
                Ok(()) => match self.spool() {
                    Some(spool) => turn(Stage::Sweeping, Action::Sweep(spool)),
                    None => self.create(),
                },
            },
            (Stage::Sweeping, Event::Changed(changed)) => match changed {
                Err(error) => finished(Err(SessionError::from(error))),
                Ok(()) => self.create(),
            },
            (Stage::Creating, Event::Ran(ran)) => match ran {
                Err(error) => finished(Err(SessionError::from(error))),
                Ok(()) => {
                    let mounts = self.mounts();
                    let record = Record::of(mounts.as_slice());
                    turn(
                        Stage::Recording,
                        Action::Record { path: self.mount_record(), record },
                    )
                },
            },
            (Stage::Recording, Event::Recorded(recorded)) => match recorded {
                Err(error) => finished(Err(SessionError::from(error))),
                Ok(()) => turn(
                    Stage::Serving,
                    Action::Serve {
                        spool: self.spool(),
                        relay: self.manifest.host.has_ports(),
                        log: self.ports_log(),
                    },
                ),
            },
            (Stage::Serving, Event::Serving) => self.set_up(process, 0),
            (Stage::SettingUp(line), Event::Exited(exited)) => match exited {
                Err(error) => turn(
                    Stage::Stopping(Err(SessionError::from(error))),
                    Action::Stop,
                ),
                Ok(code) => if code == 0 {
                    if line < self.manifest.container.setup.len() {
                        self.set_up(process, line + 1)
                    } else {
                        self.set_up(process, line)
                    }
                } else {
                    Turn {
                        stage: Stage::Stopping(Ok(code)),
                        notice: if line < self.manifest.container.setup.len() {
                            Some(
                                Notice::SetupFailed {
                                    line: self.manifest.container.setup[line].clone(),
                                    code,
                                },
                            )
                        } else {
                            None
                        },
                        action: Action::Stop,
                    }
                },
            },
            (Stage::Attached, Event::Exited(exited)) => match exited {
                Err(error) => turn(
                    Stage::Stopping(Err(SessionError::from(error))),
                    Action::Stop,
                ),
                Ok(code) => turn(Stage::Stopping(Ok(code)), Action::Stop),
            },
            (Stage::Stopping(result), Event::Stopped) => match result {
                Err(error) => finished(Err(error)),
                Ok(code) => turn(Stage::Cleaning(code), Action::Empty(self.host_spool())),
            },
            (Stage::Cleaning(code), Event::Changed(changed)) => Turn {
                stage: Stage::Done,
                notice: match changed {
                    Err(error) => Some(Notice::CleanupFailed(error)),
                    Ok(()) => None,
                },
                action: Action::Finish(Ok(code)),
            },
            (stage, _) => turn(stage, Action::Wait),
        }
    }
}

// ---------------------------------------------------------------------------
// Laws
// ---------------------------------------------------------------------------

/// Whether an event came at a stage.
pub open spec fn happened(
    session: &Session,
    process: ProcessView,
    events: Seq<Event>,
    stage: Stage,
    event: Event,
) -> bool {
    exists|i: int|
        0 <= i < events.len() && events[i] == event && #[trigger] session.reached(
            process,
            events.take(i),
        ).stage == stage
}

/// What happened stays so, whatever comes after.
proof fn lemma_happened(
    session: &Session,
    process: ProcessView,
    events: Seq<Event>,
    stage: Stage,
    event: Event,
)
    requires
        events.len() > 0,
        happened(session, process, events.drop_last(), stage, event),
    ensures
        happened(session, process, events, stage, event),
{
    let earlier = events.drop_last();
    let i = choose|i: int|
        0 <= i < earlier.len() && earlier[i] == event && #[trigger] session.reached(
            process,
            earlier.take(i),
        ).stage == stage;
    assert(earlier.take(i) =~= events.take(i));
    assert(events[i] == event);
    assert(session.reached(process, events.take(i)).stage == stage);
}

/// The last event came at the stage before it.
proof fn lemma_happened_last(session: &Session, process: ProcessView, events: Seq<Event>)
    requires
        events.len() > 0,
    ensures
        happened(
            session,
            process,
            events,
            session.reached(process, events.drop_last()).stage,
            events.last(),
        ),
{
    let i = events.len() - 1;
    assert(events.take(i) =~= events.drop_last());
    assert(events[i] == events.last());
    assert(session.reached(process, events.take(i)).stage == session.reached(
        process,
        events.drop_last(),
    ).stage);
}

/// Whether a stage comes once the sockets are bound.
spec fn comes_after_binding(stage: Stage) -> bool {
    stage is Unpacking || stage is Briefing || stage is Sweeping || stage is Creating
        || comes_after_creation(stage)
}

/// Whether a stage comes once the container is created.
spec fn comes_after_creation(stage: Stage) -> bool {
    stage is Recording || stage is Serving || stage is SettingUp || stage is Attached
        || stage is Stopping || stage is Cleaning
}

/// How many setup lines have exited with zero by a stage.
spec fn lines_done(session: &Session, stage: Stage) -> int {
    match stage {
        Stage::SettingUp(line) => line as int,
        Stage::Attached => session.setup_lines().len() as int,
        _ => 0,
    }
}

/// Whether a session ends with that exit code, and not for an error.
spec fn ends_with(stage: Stage, code: i32) -> bool {
    stage == Stage::Stopping(Ok(code)) || stage == Stage::Cleaning(code)
}

/// Whether a setup line exited with that code.
pub open spec fn line_exited(
    session: &Session,
    process: ProcessView,
    events: Seq<Event>,
    line: usize,
    code: i32,
) -> bool {
    happened(session, process, events, Stage::SettingUp(line), Event::Exited(Ok(code)))
}

/// Whether a process exited with that code, and the session with it: the assistant, or a
/// setup line that failed.
pub open spec fn exited_with(
    session: &Session,
    process: ProcessView,
    events: Seq<Event>,
    code: i32,
) -> bool {
    ||| happened(session, process, events, Stage::Joining, Event::Exited(Ok(code)))
    ||| happened(session, process, events, Stage::Attached, Event::Exited(Ok(code)))
    ||| code != 0 && exists|line: usize| line_exited(session, process, events, line, code)
}

/// What has happened by the time a session is where it is.
proof fn lemma_course(session: &Session, process: ProcessView, events: Seq<Event>)
    ensures
        comes_after_binding(session.reached(process, events).stage) ==> happened(
            session,
            process,
            events,
            Stage::Binding,
            Event::Changed(Ok(())),
        ),
        comes_after_creation(session.reached(process, events).stage) ==> happened(
            session,
            process,
            events,
            Stage::Creating,
            Event::Ran(Ok(())),
        ),
        forall|line: usize|
            line < lines_done(session, session.reached(process, events).stage) ==> line_exited(
                session,
                process,
                events,
                line,
                0,
            ),
        forall|code: i32|
            #[trigger] ends_with(session.reached(process, events).stage, code) ==> exited_with(
                session,
                process,
                events,
                code,
            ),
    decreases events.len(),
{
    if events.len() > 0 {
        let earlier = events.drop_last();
        let before = session.reached(process, earlier).stage;
        let after = session.reached(process, events).stage;
        lemma_course(session, process, earlier);
        lemma_happened_last(session, process, events);
        if before is Binding && after is Unpacking {
            assert(events.last()->Changed_0->Ok_0 == ());
            assert(events.last() == Event::Changed(Ok(())));
        }
        if before is Creating && after is Recording {
            assert(events.last()->Ran_0->Ok_0 == ());
            assert(events.last() == Event::Ran(Ok(())));
        }
        if happened(session, process, earlier, Stage::Binding, Event::Changed(Ok(()))) {
            lemma_happened(session, process, events, Stage::Binding, Event::Changed(Ok(())));
        }
        if happened(session, process, earlier, Stage::Creating, Event::Ran(Ok(()))) {
            lemma_happened(session, process, events, Stage::Creating, Event::Ran(Ok(())));
        }
        assert forall|line: usize| line < lines_done(session, after) implies line_exited(
            session,
            process,
            events,
            line,
            0,
        ) by {
            if line < lines_done(session, before) {
                assert(line_exited(session, process, earlier, line, 0));
                lemma_happened(
                    session,
                    process,
                    events,
                    Stage::SettingUp(line),
                    Event::Exited(Ok(0)),
                );
            }
        }
        assert forall|code: i32| #[trigger] ends_with(after, code) implies exited_with(
            session,
            process,
            events,
            code,
        ) by {
            if ends_with(before, code) {
                lemma_exited(session, process, events, code);
            } else if before is SettingUp {
                let line = before->SettingUp_0;
                assert(line_exited(session, process, events, line, code));
            }
        }
    }
}

proof fn lemma_exited(
    session: &Session,
    process: ProcessView,
    events: Seq<Event>,
    code: i32,
)
    requires
        events.len() > 0,
        exited_with(session, process, events.drop_last(), code),
    ensures
        exited_with(session, process, events, code),
{
    let earlier = events.drop_last();
    let event = Event::Exited(Ok(code));
    if happened(session, process, earlier, Stage::Joining, event) {
        lemma_happened(session, process, events, Stage::Joining, event);
    } else if happened(session, process, earlier, Stage::Attached, event) {
        lemma_happened(session, process, events, Stage::Attached, event);
    } else {
        let line = choose|line: usize|
            line_exited(session, process, earlier, line, code);
        lemma_happened(session, process, events, Stage::SettingUp(line), event);
        assert(line_exited(session, process, events, line, code));
    }
}

/// The container is created only once the port sockets are bound: each has to
/// already be a socket when its relay is set up.
pub proof fn law_sockets_are_bound_before_the_container_is_created(
    session: &Session,
    process: ProcessView,
    events: Seq<Event>,
)
    requires
        session.reached(process, events).action is Run,
    ensures
        happened(session, process, events, Stage::Binding, Event::Changed(Ok(()))),
{
    lemma_course(session, process, events);
}

/// What is recorded is what the container was created with, once it was.
pub proof fn law_the_record_describes_the_container(
    session: &Session,
    process: ProcessView,
    events: Seq<Event>,
)
    requires
        session.reached(process, events).action is Record,
    ensures
        happened(session, process, events, Stage::Creating, Event::Ran(Ok(()))),
        session.reached(process, events).action->mounts == session.to_run().mounts,
{
    lemma_course(session, process, events);
}

/// In a container of its own a session starts the assistant only once every setup line
/// has exited with zero.
pub proof fn law_claude_starts_once_the_container_is_set_up(
    session: &Session,
    process: ProcessView,
    events: Seq<Event>,
    line: usize,
)
    requires
        session.reached(process, events).stage is Attached,
        line < session.setup_lines().len(),
    ensures
        line_exited(session, process, events, line, 0),
{
    lemma_course(session, process, events);
}

/// Whether a stage is past anything that runs in the container.
spec fn is_ending(stage: Stage) -> bool {
    stage is Stopping || stage is Cleaning || stage is Done
}

proof fn lemma_ending(
    session: &Session,
    process: ProcessView,
    events: Seq<Event>,
    more: Seq<Event>,
)
    requires
        is_ending(session.reached(process, events).stage),
    ensures
        is_ending(session.reached(process, events + more).stage),
        more.len() > 0 ==> !(session.reached(process, events + more).action is Exec),
    decreases more.len(),
{
    if more.len() == 0 {
        assert(events + more =~= events);
    } else {
        lemma_ending(session, process, events, more.drop_last());
        assert((events + more).drop_last() =~= events + more.drop_last());
    }
}

/// A setup line that fails is reported with its exit code, and nothing more runs
/// in the container: the assistant is not started.
pub proof fn law_failed_setup_does_not_start_claude(
    session: &Session,
    process: ProcessView,
    events: Seq<Event>,
    line: usize,
    code: i32,
    more: Seq<Event>,
)
    requires
        session.reached(process, events).stage == Stage::SettingUp(line),
        line < session.setup_lines().len(),
        code != 0,
    ensures
        session.reached(process, events.push(Event::Exited(Ok(code)))).notice == Some(
            NoticeView::SetupFailed { line: session.setup_lines()[line as int], code },
        ),
        !(session.reached(process, events.push(Event::Exited(Ok(code))) + more).action is Exec),
{
    let failed = events.push(Event::Exited(Ok(code)));
    assert(failed.drop_last() =~= events);
    assert(failed.last() == Event::Exited(Ok(code)));
    lemma_ending(session, process, failed, more);
    if more.len() == 0 {
        assert(failed + more =~= failed);
    }
}

/// A session that ends without an error ends with an exit code that the assistant, or a
/// setup line that failed, exited with.
pub proof fn law_the_exit_code_is_passed_on(
    session: &Session,
    process: ProcessView,
    events: Seq<Event>,
    code: i32,
)
    requires
        session.reached(process, events).action == ActionView::Finish(Ok(code)),
    ensures
        exited_with(session, process, events, code),
{
    let earlier = events.drop_last();
    lemma_course(session, process, earlier);
    lemma_happened_last(session, process, events);
    let before = session.reached(process, earlier).stage;
    if before is Cleaning {
        assert(ends_with(before, code));
        lemma_exited(session, process, events, code);
    }
}

/// The spool is emptied only by the session that created the container.
pub proof fn law_only_the_creator_cleans_up(
    session: &Session,
    process: ProcessView,
    events: Seq<Event>,
)
    requires
        session.reached(process, events).action is Empty,
    ensures
        happened(session, process, events, Stage::Creating, Event::Ran(Ok(()))),
{
    lemma_course(session, process, events);
}

/// A session that finds its container running attaches the assistant to it and does
/// nothing else: it creates, binds, sweeps, records, serves and cleans nothing.
pub proof fn law_a_joiner_only_attaches(
    session: &Session,
    process: ProcessView,
    events: Seq<Event>,
    more: Seq<Event>,
)
    requires
        session.reached(process, events).stage is Asking,
    ensures
        ({
            let joined = events.push(Event::Running(Ok(true)));
            let turn = session.reached(process, joined + more);
            if more.len() == 0 {
                turn.action == ActionView::Exec(session.to_attach(process))
            } else {
                turn.action is Finish || turn.action is Wait
            }
        }),
{
    let joined = events.push(Event::Running(Ok(true)));
    assert(joined.drop_last() =~= events);
    assert(joined.last() == Event::Running(Ok(true)));
    lemma_joined(session, process, joined, more);
    if more.len() == 0 {
        assert(joined + more =~= joined);
    }
}

proof fn lemma_joined(
    session: &Session,
    process: ProcessView,
    events: Seq<Event>,
    more: Seq<Event>,
)
    requires
        session.reached(process, events).stage is Joining,
    ensures
        ({
            let turn = session.reached(process, events + more);
            &&& turn.stage is Joining || turn.stage is Done
            &&& more.len() > 0 ==> turn.action is Finish || turn.action is Wait
        }),
    decreases more.len(),
{
    if more.len() == 0 {
        assert(events + more =~= events);
    } else {
        lemma_joined(session, process, events, more.drop_last());
        assert((events + more).drop_last() =~= events + more.drop_last());
    }
}

/// A session that finds no container of its own makes one, and every step of that is
/// taken, in this order, whatever the ones before it came to as long as they
/// succeed: the token is seeded, settings are shared, the engine is asked for the
/// container, the spool is made, sockets are bound, the engine is asked for the
/// image, the briefing is written, the spool is swept, and the container is created,
/// recorded and served.
pub proof fn law_a_container_is_made_step_by_step(
    session: &Session,
    process: ProcessView,
    outcome: SeedOutcome,
    shared: Vec<String>,
    unpacked: bool,
)
    ensures
        ({
            let host = session.manifest.host;
            let serves = host.clipboard || host.commands@.len() > 0;
            let t0 = session.first_turn();
            let t1 = session.next_turn(process, t0.stage, Event::Seeded(Ok(outcome)));
            let t2 = session.next_turn(process, t1.stage, Event::Shared(Ok(shared)));
            let t3 = session.next_turn(process, t2.stage, Event::Running(Ok(false)));
            let t4 = session.next_turn(process, t3.stage, Event::Changed(Ok(())));
            let t5 = session.next_turn(process, t4.stage, Event::Changed(Ok(())));
            let t6 = session.next_turn(process, t5.stage, Event::Unpacked(Ok(unpacked)));
            let t7 = session.next_turn(process, t6.stage, Event::Changed(Ok(())));
            let t8 = if serves {
                session.next_turn(process, t7.stage, Event::Changed(Ok(())))
            } else {
                t7
            };
            let t9 = session.next_turn(process, t8.stage, Event::Ran(Ok(())));
            let t10 = session.next_turn(process, t9.stage, Event::Recorded(Ok(())));
            &&& t0.action == (ActionView::Seed {
                home: session.home(),
                enabled: session.manifest.claude.seed_from_keychain,
            })
            &&& t1.action == (ActionView::Share {
                from: session.resolver.leads_to("~/."@ + session.assistant@),
                to: session.home(),
                names: settings::shared_names(
                    session.assistant@,
                    text::views(session.manifest.claude.shared@),
                ),
            })
            &&& t1.notice is Some <==> outcome == SeedOutcome::NotInKeychain
            &&& t2.action == ActionView::IsRunning("compostbin-"@ + session.project())
            &&& t2.notice is Some <==> shared@.len() > 0
            &&& t3.action == ActionView::Create(
                if serves {
                    seq![
                        paths::joined(session.kept("host"@), "requests"@),
                        paths::joined(session.kept("host"@), "running"@),
                        paths::joined(session.kept("host"@), "responses"@),
                    ]
                } else {
                    seq![]
                },
            )
            &&& t4.action matches ActionView::Bind(forwards) && forwards.len() == host.ports@.len()
            &&& t5.action == ActionView::IsUnpacked(session.to_run().image)
            &&& t6.notice is Some <==> !unpacked
            &&& t6.action matches ActionView::Write(files) && files.len() == 2 && files[0].path
                == paths::joined(session.kept("managed"@), "managed-settings.json"@)
                && files[0].contents == assistant::settings(session.assistant@) && files[1].path
                == paths::joined(session.kept("managed"@), "session-context.txt"@)
            &&& serves ==> t7.action == ActionView::Sweep(session.kept("host"@))
            &&& t8.action == ActionView::Run(session.to_run())
            &&& t9.action == (ActionView::Record {
                path: session.kept("mounts.toml"@),
                mounts: session.mounted(),
            })
            &&& t10.action == (ActionView::Serve {
                spool: if serves {
                    Some(session.kept("host"@))
                } else {
                    None
                },
                relay: host.ports@.len() > 0,
                log: session.kept("ports.log"@),
            })
        }),
{
    assert(Seq::<Seq<char>>::empty() =~= seq![]);
}

/// Every declared port is bound: its socket is in the session's own directory, and
/// leads to that port of the host's loopback.
pub proof fn law_every_declared_port_is_bound(session: &Session, i: int)
    requires
        0 <= i < session.manifest.host.ports@.len(),
    ensures
        session.bindings().len() == session.manifest.host.ports@.len(),
        ({
            let port = session.manifest.host.ports@[i];
            let forward = session.bindings()[i];
            &&& forward.listen == paths::joined(
                session.kept("ports"@),
                text::decimal(port as nat) + ".sock"@,
            )
            &&& forward.host == "127.0.0.1"@
            &&& forward.port == port
        }),
{
}

/// Once the container is served, every setup line runs in it, in order and in a
/// shell that stops at the first failure, and then the process, as it was asked for:
/// its arguments, its user, and a terminal where it wants one.
pub proof fn law_setup_runs_line_by_line_then_the_process(
    session: &Session,
    process: ProcessView,
    line: usize,
)
    requires
        line < usize::MAX,
        line <= session.manifest.container.setup@.len(),
    ensures
        ({
            let setup = session.manifest.container.setup@;
            let turn = if line == 0 {
                session.next_turn(process, Stage::Serving, Event::Serving)
            } else {
                session.next_turn(
                    process,
                    Stage::SettingUp((line - 1) as usize),
                    Event::Exited(Ok(0)),
                )
            };
            &&& turn.action is Exec
            &&& line < setup.len() ==> turn.stage == Stage::SettingUp(line)
                && turn.action->Exec_0.arguments == seq![
                "bash"@,
                "-euo"@,
                "pipefail"@,
                "-c"@,
                setup[line as int]@,
            ]
            &&& line == setup.len() ==> turn.stage is Attached && turn.action->Exec_0.arguments
                == process.arguments && turn.action->Exec_0.user == process.user
                && turn.action->Exec_0.tty == process.tty
            &&& turn.action->Exec_0.name == "compostbin-"@ + session.project()
            &&& turn.action->Exec_0.workdir == Some(session.landing())
            &&& turn.action->Exec_0.env == session.to_exec(process.arguments).env
        }),
{
}

/// Whatever fails on the way to the container ends the session with that failure,
/// and nothing more is done; so is a session that joins another's container done
/// when its process is, with its exit code.
pub proof fn law_a_failure_ends_the_session(
    session: &Session,
    process: ProcessView,
    credential: CredentialError,
    io: PathError,
    engine: EngineError,
    record: ManifestError,
    code: i32,
)
    ensures
        ({
            let failed = |stage: Stage, event: Event, error: SessionError| {
                let turn = session.next_turn(process, stage, event);
                turn.stage == Stage::Done && turn.action == ActionView::Finish(Err(error))
            };
            &&& failed(
                Stage::Seeding,
                Event::Seeded(Err(credential)),
                SessionError::Credential(credential),
            )
            &&& failed(Stage::Sharing, Event::Shared(Err(io)), SessionError::Io(io))
            &&& failed(Stage::Asking, Event::Running(Err(engine)), SessionError::Engine(engine))
            &&& failed(Stage::Joining, Event::Exited(Err(engine)), SessionError::Engine(engine))
            &&& failed(Stage::Spooling, Event::Changed(Err(io)), SessionError::Io(io))
            &&& failed(Stage::Binding, Event::Changed(Err(io)), SessionError::Io(io))
            &&& failed(
                Stage::Unpacking,
                Event::Unpacked(Err(engine)),
                SessionError::Engine(engine),
            )
            &&& failed(Stage::Briefing, Event::Changed(Err(io)), SessionError::Io(io))
            &&& failed(Stage::Sweeping, Event::Changed(Err(io)), SessionError::Io(io))
            &&& failed(Stage::Creating, Event::Ran(Err(engine)), SessionError::Engine(engine))
            &&& failed(
                Stage::Recording,
                Event::Recorded(Err(record)),
                SessionError::Record(record),
            )
            &&& session.next_turn(
                process,
                Stage::Joining,
                Event::Exited(Ok(code)),
            ).action == ActionView::Finish(Ok(code))
        }),
{
}

/// When the process of a container's creator exits, what runs beside it is stopped,
/// then the spool is emptied, and the exit code is the process's; a failure to empty
/// it is told, and changes nothing.
pub proof fn law_the_creator_stops_then_cleans_then_ends(
    session: &Session,
    process: ProcessView,
    code: i32,
    io: PathError,
)
    ensures
        ({
            let t0 = session.next_turn(process, Stage::Attached, Event::Exited(Ok(code)));
            let t1 = session.next_turn(process, t0.stage, Event::Stopped);
            let t2 = session.next_turn(process, t1.stage, Event::Changed(Ok(())));
            let t3 = session.next_turn(process, t1.stage, Event::Changed(Err(io)));
            &&& t0.action == ActionView::Stop
            &&& t1.action == ActionView::Empty(session.kept("host"@))
            &&& t2.action == ActionView::Finish(Ok(code)) && t2.notice is None
            &&& t3.action == ActionView::Finish(Ok(code)) && t3.notice == Some(
                NoticeView::CleanupFailed(io),
            )
        }),
{
}

/// The assistant is run by its name, with everything that was passed on to it and in
/// that order.
pub proof fn law_what_is_passed_on_reaches_the_assistant(
    name: Seq<char>,
    arguments: Seq<Seq<char>>,
    i: int,
)
    ensures
        claude_with(name, arguments).len() == arguments.len() + 1,
        claude_with(name, arguments)[0] == name,
        0 <= i < arguments.len() ==> claude_with(name, arguments)[i + 1] == arguments[i],
{
}

} // verus!

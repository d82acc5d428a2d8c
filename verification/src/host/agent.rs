//! Claiming a request, running it, and publishing what it produced.
//!
//! One guarantee shapes all of it: when the guest sees `<id>.status`, every byte
//! of output is already a complete inode. Hence chunks published by rename, and
//! a status file written last.
use crate::error::RefusalView;
use crate::host;
use crate::host::request;
use crate::host::request::{Request, RequestView};
use crate::host::spool;
use crate::host::spool::{Publication, Spool};
use crate::manifest::commands;
use crate::manifest::commands::{Commands, HostCommandView};
use crate::paths;
use crate::paths::PathBuf;
use crate::text;
use vstd::prelude::*;

verus! {

// ---------------------------------------------------------------------------
// What a request comes to
// ---------------------------------------------------------------------------

/// What becomes of a request, once it is read.
#[derive(Debug, PartialEq)]
pub enum Decision {
    /// It is refused, and the guest is told why.
    Refuse(String),
    /// It runs; `tty` is whether its command asks for a terminal.
    Run { argv: Vec<String>, tty: bool },
}

/// A `Decision`, its texts as sequences of characters.
pub enum DecisionView {
    Refuse(Seq<char>),
    Run { argv: Seq<Seq<char>>, tty: bool },
}

impl View for Decision {
    type V = DecisionView;

    open spec fn view(&self) -> DecisionView {
        match self {
            Decision::Refuse(message) => DecisionView::Refuse(message@),
            Decision::Run { argv, tty } => DecisionView::Run {
                argv: text::views(argv@),
                tty: *tty,
            },
        }
    }
}

/// What becomes of the request that a text holds.
pub open spec fn decision(
    commands: Seq<(Seq<char>, HostCommandView)>,
    s: Seq<char>,
) -> DecisionView {
    match request::parsed(s) {
        Err(refusal) => DecisionView::Refuse(refusal.sentence()),
        Ok(asked) => match request::resolution(commands, asked) {
            Err(refusal) => DecisionView::Refuse(refusal.sentence()),
            Ok(argv) => DecisionView::Run {
                argv,
                tty: commands::lookup(commands, asked.command)->0.tty,
            },
        },
    }
}

/// What becomes of the request that a text holds. What may run is decided apart
/// from how it is wired up.
pub fn decide(commands: &Commands, s: &str) -> (r: Decision)
    ensures
        r@ == decision(commands@, s@),
{
    match Request::parse(s) {
        Err(refusal) => Decision::Refuse(refusal.to_string()),
        Ok(asked) => {
            match request::resolve(commands, &asked) {
                Err(refusal) => Decision::Refuse(refusal.to_string()),
                Ok(argv) => {
                    let tty = match commands.get(asked.command.as_str()) {
                        Some(command) => command.tty,
                        None => false,
                    };
                    Decision::Run { argv, tty }
                },
            }
        },
    }
}

/// The streams that are published: the two of a command on pipes, or the one
/// device that a terminal is.
pub fn streams(tty: bool) -> (r: Vec<String>)
    ensures
        text::views(r@) == (if tty {
            seq!["out"@]
        } else {
            seq!["out"@, "err"@]
        }),
{
    let mut out: Vec<String> = Vec::new();
    out.push(host::OUTPUT_STREAM.to_string());
    if !tty {
        out.push(host::ERROR_STREAM.to_string());
    }
    assert(text::views(out@) =~= (if tty {
        seq!["out"@]
    } else {
        seq!["out"@, "err"@]
    }));
    out
}

/// The exit code to report of a command that ended with a code, or was killed
/// by a signal.
pub fn exit_status(code: Option<i32>, signal: i32) -> (r: i32)
    requires
        0 <= signal <= 127,
    ensures
        r == (match code {
            Some(code) => code as int,
            None => 128 + signal,
        }),
{
    match code {
        Some(code) => code,
        None => host::SIGNAL_EXIT_BASE + signal,
    }
}

// ---------------------------------------------------------------------------
// The files of a response
// ---------------------------------------------------------------------------

/// The name of a chunk of output: the request, the stream, and the number of
/// the chunk, padded so that names are in order as chunks are.
pub open spec fn chunk_name(id: Seq<char>, stream: Seq<char>, sequence: nat) -> Seq<char> {
    id + "."@ + stream + "."@ + text::zero_padded(sequence, 6)
}

/// One chunk of a stream, as it is published: written `.partial`, then renamed,
/// so the guest's first look at the inode finds it complete.
pub fn chunk(spool: &Spool, id: &str, stream: &str, sequence: usize, data: Vec<u8>) -> (r:
    Publication)
    ensures
        spool::is_publication(
            r,
            paths::joined(spool.root@, "responses"@),
            chunk_name(id@, stream@, sequence as nat),
            data@,
        ),
{
    let mut name = id.to_string();
    name.append(".");
    name.append(stream);
    name.append(".");
    name.append(text::zero_pad(sequence as u128, host::SEQUENCE_WIDTH).as_str());
    spool::publication(&spool.responses(), name.as_str(), data)
}

/// What the guest is told when a request comes to nothing.
pub open spec fn complaint(message: Seq<char>) -> Seq<char> {
    ("compostbin: "@ + message).push('\n')
}

/// The chunk that tells the guest why its request came to nothing: the first,
/// and only, of its error stream.
pub fn refusal(spool: &Spool, id: &str, message: &str) -> (r: Publication)
    ensures
        spool::is_publication(
            r,
            paths::joined(spool.root@, "responses"@),
            chunk_name(id@, "err"@, 1),
            text::utf8(complaint(message@)),
        ),
{
    let mut shown = "compostbin: ".to_string();
    shown.append(message);
    shown.push('\n');
    chunk(spool, id, host::ERROR_STREAM, 1, shown.as_str().as_bytes_vec())
}

/// The status file of a request, written last and by rename, so its appearance
/// means "finished, output complete".
pub fn status(spool: &Spool, id: &str, code: i32) -> (r: Publication)
    ensures
        spool::is_publication(
            r,
            paths::joined(spool.root@, "responses"@),
            id@ + ".status"@,
            text::utf8(text::signed(code as int).push('\n')),
        ),
{
    let mut shown = text::signed_text(code);
    shown.push('\n');
    let mut name = id.to_string();
    name.append(host::STATUS_SUFFIX);
    spool::publication(&spool.responses(), name.as_str(), shown.as_str().as_bytes_vec())
}

/// Where the guest writes a request's input.
pub fn input_path(spool: &Spool, id: &str) -> (r: PathBuf)
    ensures
        r@ == paths::joined(paths::joined(spool.root@, "responses"@), id@ + ".in"@),
{
    let mut name = id.to_string();
    name.append(host::INPUT_SUFFIX);
    spool.responses().join(name.as_str())
}

/// Where the guest marks the end of a request's input.
pub fn input_eof_path(spool: &Spool, id: &str) -> (r: PathBuf)
    ensures
        r@ == paths::joined(paths::joined(spool.root@, "responses"@), id@ + ".in.eof"@),
{
    let mut name = id.to_string();
    name.append(host::INPUT_EOF_SUFFIX);
    spool.responses().join(name.as_str())
}

/// Where the guest marks that a request was made from a terminal.
pub fn tty_path(spool: &Spool, id: &str) -> (r: PathBuf)
    ensures
        r@ == paths::joined(paths::joined(spool.root@, "responses"@), id@ + ".tty"@),
{
    let mut name = id.to_string();
    name.append(host::TTY_SUFFIX);
    spool.responses().join(name.as_str())
}

/// The guest's input on its way to a command: how much of it has been handed
/// on.
#[derive(Debug, PartialEq)]
pub struct Pump {
    pub offset: u64,
}

impl Pump {
    pub fn new() -> (r: Self)
        ensures
            r.offset == 0,
    {
        Pump { offset: 0 }
    }

    /// Accounts for what was read past the offset, and answers whether to read
    /// again later. `ended` is whether the end of input was marked, or the command
    /// had exited, before the read: the last read then saw everything. A command
    /// that does not take its input ends the pump; that is normal.
    pub fn advance(&mut self, read: u64, taken: bool, ended: bool) -> (r: bool)
        requires
            old(self).offset + read <= u64::MAX,
        ensures
            final(self).offset == old(self).offset + read,
            r == ((read == 0 || taken) && !ended),
    {
        self.offset = self.offset + read;
        if read > 0 && !taken {
            return false;
        }
        !ended
    }
}

// ---------------------------------------------------------------------------
// One request
// ---------------------------------------------------------------------------

/// How far a request has come.
#[derive(Debug, PartialEq)]
pub enum Stage {
    /// It is being claimed. The rename *is* the claim: it is atomic, so racing
    /// agents cannot both win.
    Claiming(String),
    /// It is claimed, and being read.
    Reading(String),
    /// Its command, whose program is named, is running.
    Running(String, String),
    /// The guest is being told that it comes to nothing.
    Refusing(String),
    /// Its status is being published.
    Reporting(String),
    /// Its claim is being cleared.
    Clearing(String),
    /// Nothing is left to do for it.
    Done,
}

/// What has to happen for a request next.
#[derive(Debug, PartialEq)]
pub enum Action {
    Rename { from: PathBuf, to: PathBuf },
    Read(PathBuf),
    Run { argv: Vec<String>, tty: bool },
    Publish(Publication),
    Remove(PathBuf),
    Finish,
}

/// What came of an action.
#[derive(Debug, PartialEq)]
pub enum Event {
    /// Whether the rename succeeded: another agent may have won.
    Renamed(bool),
    /// What the claimed request holds, and whether the guest marked it as made from
    /// a terminal.
    Text(String, bool),
    /// The command could not be started.
    NotStarted(String),
    /// The command ended, and every reader of its streams has published what it
    /// read.
    Exited(i32),
    Published,
    Removed,
    /// The action failed in a way that ends the request.
    Failed,
}

/// The file a submitted request of that id is in.
pub open spec fn submitted_path(spool: &Spool, id: Seq<char>) -> Seq<char> {
    paths::joined(paths::joined(spool.root@, "requests"@), id + ".request"@)
}

/// The file a claimed request of that id is in.
pub open spec fn claimed_path(spool: &Spool, id: Seq<char>) -> Seq<char> {
    paths::joined(paths::joined(spool.root@, "running"@), id)
}

/// Whether an action publishes the message that a request comes to nothing.
pub open spec fn publishes_refusal(
    action: Action,
    spool: &Spool,
    id: Seq<char>,
    message: Seq<char>,
) -> bool {
    action matches Action::Publish(publication) && spool::is_publication(
        publication,
        paths::joined(spool.root@, "responses"@),
        chunk_name(id, "err"@, 1),
        text::utf8(complaint(message)),
    )
}

/// Whether an action publishes a status.
pub open spec fn publishes_status(action: Action, spool: &Spool, id: Seq<char>, code: int) -> bool {
    action matches Action::Publish(publication) && spool::is_publication(
        publication,
        paths::joined(spool.root@, "responses"@),
        id + ".status"@,
        text::utf8(text::signed(code).push('\n')),
    )
}

/// Whether `next` and `action` are what follows when an event comes at a stage.
pub open spec fn follows(
    stage: Stage,
    event: Event,
    spool: &Spool,
    commands: Seq<(Seq<char>, HostCommandView)>,
    next: Stage,
    action: Action,
) -> bool {
    match (stage, event) {
        (Stage::Claiming(id), Event::Renamed(true)) => {
            &&& next == Stage::Reading(id)
            &&& action matches Action::Read(path) && path@ == claimed_path(spool, id@)
        },
        (Stage::Reading(id), Event::Text(held, marked)) => match decision(commands, held@) {
            DecisionView::Refuse(message) => {
                &&& next == Stage::Refusing(id)
                &&& publishes_refusal(action, spool, id@, message)
            },
            DecisionView::Run { argv, tty } => {
                &&& next matches Stage::Running(same, program) && same == id && program@ == argv[0]
                &&& action matches Action::Run { argv: given, tty: terminal } && text::views(given@)
                    == argv && terminal == (tty && marked)
            },
        },
        (Stage::Running(id, program), Event::NotStarted(reason)) => {
            &&& next == Stage::Refusing(id)
            &&& publishes_refusal(action, spool, id@, program@ + ": "@ + reason@)
        },
        (Stage::Running(id, _), Event::Exited(code)) => {
            &&& next == Stage::Reporting(id)
            &&& publishes_status(action, spool, id@, code as int)
        },
        (Stage::Refusing(id), Event::Published) => {
            &&& next == Stage::Reporting(id)
            &&& publishes_status(action, spool, id@, 126)
        },
        (Stage::Reporting(id), Event::Published) => {
            &&& next == Stage::Clearing(id)
            &&& action matches Action::Remove(path) && path@ == claimed_path(spool, id@)
        },
        _ => next == Stage::Done && action == Action::Finish,
    }
}

/// Begins with the oldest request among the names in the requests directory;
/// `None` where there is nothing to do.
pub fn serve_once(spool: &Spool, names: &Vec<String>) -> (r: Option<(Stage, Action)>)
    ensures
        match r {
            Some((stage, action)) => {
                &&& stage is Claiming
                &&& spool::is_oldest(text::views(names@), stage->Claiming_0@)
                &&& action is Rename
                &&& action->from@ == submitted_path(spool, stage->Claiming_0@)
                &&& action->to@ == claimed_path(spool, stage->Claiming_0@)
            },
            None => forall|i: int|
                0 <= i < names@.len() ==> spool::id_of(#[trigger] text::views(names@)[i]) is None,
        },
{
    match spool.next_request_id(names) {
        None => None,
        Some(id) => {
            let mut name = id.clone();
            name.append(host::REQUEST_SUFFIX);
            let from = spool.requests().join(name.as_str());
            let to = spool.running().join(id.as_str());
            Some((Stage::Claiming(id), Action::Rename { from, to }))
        },
    }
}

/// What follows when an event comes at a stage: the next stage, and what has to
/// happen there. An event that does not belong to the stage ends the request.
pub fn advance(stage: Stage, event: Event, spool: &Spool, commands: &Commands) -> (r: (
    Stage,
    Action,
))
    ensures
        follows(stage, event, spool, commands@, r.0, r.1),
{
    match (stage, event) {
        (Stage::Claiming(id), Event::Renamed(true)) => {
            let path = spool.running().join(id.as_str());
            (Stage::Reading(id), Action::Read(path))
        },
        (Stage::Reading(id), Event::Text(held, marked)) => {
            match decide(commands, held.as_str()) {
                Decision::Refuse(message) => {
                    let told = refusal(spool, id.as_str(), message.as_str());
                    (Stage::Refusing(id), Action::Publish(told))
                },
                Decision::Run { argv, tty } => {
                    proof {
                        lemma_runs_something(commands@, held@);
                        assert(text::views(argv@).len() == argv@.len());
                    }
                    let program = argv[0].clone();
                    assert(program@ == text::views(argv@)[0]);
                    (Stage::Running(id, program), Action::Run { argv, tty: tty && marked })
                },
            }
        },
        (Stage::Running(id, program), Event::NotStarted(reason)) => {
            let mut message = program.clone();
            message.append(": ");
            message.append(reason.as_str());
            let told = refusal(spool, id.as_str(), message.as_str());
            (Stage::Refusing(id), Action::Publish(told))
        },
        (Stage::Running(id, _), Event::Exited(code)) => {
            let written = status(spool, id.as_str(), code);
            (Stage::Reporting(id), Action::Publish(written))
        },
        (Stage::Refusing(id), Event::Published) => {
            let written = status(spool, id.as_str(), host::REJECTED_EXIT_CODE);
            (Stage::Reporting(id), Action::Publish(written))
        },
        (Stage::Reporting(id), Event::Published) => {
            let path = spool.running().join(id.as_str());
            (Stage::Clearing(id), Action::Remove(path))
        },
        _ => (Stage::Done, Action::Finish),
    }
}

/// A request that runs names a program.
proof fn lemma_runs_something(commands: Seq<(Seq<char>, HostCommandView)>, s: Seq<char>)
    ensures
        decision(commands, s) matches DecisionView::Run { argv, .. } ==> argv.len() > 0,
{
}

/// The status of a request is published only once its command has exited with
/// every stream published, or once the guest has been told why it comes to
/// nothing; in the first case it is the command's exit code, in the second that
/// of a rejection.
pub proof fn law_the_status_comes_last(
    stage: Stage,
    event: Event,
    spool: &Spool,
    commands: Seq<(Seq<char>, HostCommandView)>,
    next: Stage,
    action: Action,
)
    requires
        follows(stage, event, spool, commands, next, action),
        next is Reporting,
    ensures
        (stage is Running && event is Exited && publishes_status(
            action,
            spool,
            next->Reporting_0@,
            event->Exited_0 as int,
        )) || (stage is Refusing && event is Published && publishes_status(
            action,
            spool,
            next->Reporting_0@,
            126,
        )),
{
}

/// A refused request runs nothing: what the guest gets is the reason, on the
/// error stream, and the status of a rejection.
pub proof fn law_refused_requests_run_nothing(
    id: String,
    held: String,
    marked: bool,
    spool: &Spool,
    commands: Seq<(Seq<char>, HostCommandView)>,
    next: Stage,
    action: Action,
    refusal: RefusalView,
    asked: RequestView,
)
    requires
        follows(Stage::Reading(id), Event::Text(held, marked), spool, commands, next, action),
        request::parsed(held@) == Ok::<RequestView, RefusalView>(asked),
        request::resolution(commands, asked) == Err::<Seq<Seq<char>>, RefusalView>(refusal),
    ensures
        next == Stage::Refusing(id),
        publishes_refusal(action, spool, id@, refusal.sentence()),
        !(action is Run),
{
}

/// A command gets a terminal only where it asks for one and the guest marked that
/// its own output is one: a caller that captures output never gets colour codes.
pub proof fn law_a_terminal_needs_one_on_both_sides(
    stage: Stage,
    event: Event,
    spool: &Spool,
    commands: Seq<(Seq<char>, HostCommandView)>,
    next: Stage,
    action: Action,
)
    requires
        follows(stage, event, spool, commands, next, action),
        action matches Action::Run { tty, .. } && tty,
    ensures
        match event {
            Event::Text(held, marked) => marked && match request::parsed(held@) {
                Ok(asked) => match commands::lookup(commands, asked.command) {
                    Some(command) => command.tty,
                    None => false,
                },
                Err(_) => false,
            },
            _ => false,
        },
{
    if let Event::Text(held, _) = event {
        lemma_runs_something(commands, held@);
    }
}

/// The chunks of a stream are in order as names, as far as the padding reaches.
pub proof fn law_chunk_names_are_in_order(id: Seq<char>, stream: Seq<char>, a: nat, b: nat)
    requires
        a < 1_000_000,
        b < 1_000_000,
    ensures
        text::less(chunk_name(id, stream, a), chunk_name(id, stream, b)) == (a < b),
{
    reveal_with_fuel(text::power, 7);
    assert(text::power(6) == 1_000_000);
    text::lemma_zero_padded_order(a, b, 6);
    text::lemma_less_prefix(
        id + "."@ + stream + "."@,
        text::zero_padded(a, 6),
        text::zero_padded(b, 6),
    );
}

// ---------------------------------------------------------------------------
// Many requests
// ---------------------------------------------------------------------------

/// What the agent does next.
#[derive(Clone, Copy, Debug, PartialEq, Eq, Structural)]
pub enum Next {
    /// It returns once every request in flight is complete.
    Stop,
    /// It waits, and asks again.
    Wait,
    /// It looks for a request to claim.
    Claim,
}

/// An agent that serves requests until it is stopped, each on its own: subagents
/// call `compostbin-host` independently, so a long test run must not block the
/// rest. Claimed one at a time in arrival order, then dispatched; `limit` bounds
/// what is in flight, so a guest looping on submissions cannot spawn unbounded
/// work.
#[derive(Debug, PartialEq)]
pub struct Service {
    pub in_flight: usize,
    pub limit: usize,
}

impl Service {
    /// How many requests may be in flight: the limit, but at least one.
    pub open spec fn bound(&self) -> usize {
        if self.limit > 1 {
            self.limit
        } else {
            1
        }
    }

    /// Whether no more requests are in flight than may be.
    pub open spec fn is_bounded(&self) -> bool {
        self.in_flight <= self.bound()
    }

    pub fn new(limit: usize) -> (r: Self)
        ensures
            r.limit == limit,
            r.in_flight == 0,
            r.is_bounded(),
    {
        Service { in_flight: 0, limit }
    }

    /// What the agent does next.
    pub fn serve(&self, stopped: bool) -> (r: Next)
        ensures
            r == (if stopped {
                Next::Stop
            } else if self.in_flight >= self.bound() {
                Next::Wait
            } else {
                Next::Claim
            }),
    {
        let bound: usize = if self.limit > 1 {
            self.limit
        } else {
            1
        };
        if stopped {
            Next::Stop
        } else if self.in_flight >= bound {
            Next::Wait
        } else {
            Next::Claim
        }
    }

    /// A request was claimed, and is dispatched.
    pub fn dispatch(&mut self)
        requires
            old(self).in_flight < old(self).bound(),
        ensures
            final(self).in_flight == old(self).in_flight + 1,
            final(self).limit == old(self).limit,
            final(self).is_bounded(),
    {
        self.in_flight = self.in_flight + 1;
    }

    /// A dispatched request is complete, or failed: one request's failure must
    /// not strand every other.
    pub fn complete(&mut self)
        requires
            old(self).in_flight > 0,
            old(self).is_bounded(),
        ensures
            final(self).in_flight == old(self).in_flight - 1,
            final(self).limit == old(self).limit,
            final(self).is_bounded(),
    {
        self.in_flight = self.in_flight - 1;
    }
}

/// A request that is claimed is read from where it was moved to; one that another
/// agent claimed is left to it. Once its status is published its claim is removed,
/// and then nothing is left to do; nor is there where any step fails.
pub proof fn law_a_claim_is_read_and_then_cleared(
    id: String,
    event: Event,
    spool: &Spool,
    commands: Seq<(Seq<char>, HostCommandView)>,
    next: Stage,
    action: Action,
)
    ensures
        follows(Stage::Claiming(id), event, spool, commands, next, action) ==> match event {
            Event::Renamed(true) => next == Stage::Reading(id) && action is Read
                && action->Read_0@ == paths::joined(paths::joined(spool.root@, "running"@), id@),
            _ => next == Stage::Done && action == Action::Finish,
        },
        follows(Stage::Reporting(id), event, spool, commands, next, action) ==> match event {
            Event::Published => next == Stage::Clearing(id) && action is Remove
                && action->Remove_0@ == paths::joined(
                paths::joined(spool.root@, "running"@),
                id@,
            ),
            _ => next == Stage::Done && action == Action::Finish,
        },
        follows(Stage::Clearing(id), event, spool, commands, next, action) ==> next == Stage::Done
            && action == Action::Finish,
        follows(Stage::Reading(id), Event::Failed, spool, commands, next, action) ==> next
            == Stage::Done && action == Action::Finish,
{
}

/// What runs for a request is the command declared under the name it asks for, and
/// behind it the request's own arguments; under a terminal exactly where the command
/// asks for one and the request was marked.
pub proof fn law_what_runs_is_what_was_declared(
    id: String,
    held: String,
    marked: bool,
    spool: &Spool,
    commands: Seq<(Seq<char>, HostCommandView)>,
    next: Stage,
    action: Action,
)
    requires
        follows(Stage::Reading(id), Event::Text(held, marked), spool, commands, next, action),
        action is Run,
    ensures
        request::parsed(held@) is Ok,
        ({
            let asked = request::parsed(held@)->Ok_0;
            &&& commands::lookup(commands, asked.command) matches Some(command)
            &&& command.argv.len() > 0
            &&& text::views(action->argv@) == command.argv + asked.arguments
            &&& action->tty == (command.tty && marked)
            &&& next matches Stage::Running(same, program)
            &&& same == id
            &&& program@ == command.argv[0]
        }),
{
    let asked = request::parsed(held@)->Ok_0;
    assert(request::resolution(commands, asked) is Ok);
    let command = commands::lookup(commands, asked.command)->0;
    if asked.arguments.len() == 0 {
        assert(command.argv + asked.arguments =~= command.argv);
    }
}

/// A command that cannot be started is reported by its name and the reason, and its
/// request ends as a rejected one does.
pub proof fn law_a_command_that_does_not_start_is_reported(
    id: String,
    program: String,
    reason: String,
    spool: &Spool,
    commands: Seq<(Seq<char>, HostCommandView)>,
    next: Stage,
    action: Action,
)
    requires
        follows(
            Stage::Running(id, program),
            Event::NotStarted(reason),
            spool,
            commands,
            next,
            action,
        ),
    ensures
        next == Stage::Refusing(id),
        action is Publish,
        action->Publish_0.contents@ == text::utf8(
            ("compostbin: "@ + program@ + ": "@ + reason@).push('\n'),
        ),
{
    assert(complaint(program@ + ": "@ + reason@) =~= ("compostbin: "@ + program@ + ": "@
        + reason@).push('\n'));
}

/// However low the limit, one request is served at a time; a limit of one or more is
/// kept to.
pub proof fn law_at_least_one_request_is_served(service: &Service)
    ensures
        service.bound() >= 1,
        service.limit >= 1 ==> service.bound() == service.limit,
        service.is_bounded() <==> service.in_flight <= service.bound(),
{
}

/// A command that was killed is told from one that ended: its code is the signal's,
/// above every code that a signal is not.
pub proof fn law_a_killed_command_is_told_apart(code: Option<i32>, signal: i32, reported: i32)
    requires
        0 <= signal <= 127,
        call_ensures(exit_status, (code, signal), reported),
    ensures
        code matches Some(code) ==> reported == code,
        code is None ==> reported == 128 + signal,
{
}

/// An agent that was stopped claims nothing more; one that was not claims exactly
/// while fewer requests are in flight than may be.
pub proof fn law_no_more_is_claimed_than_may_be(service: &Service, stopped: bool, next: Next)
    requires
        call_ensures(Service::serve, (service, stopped), next),
    ensures
        next == Next::Stop <==> stopped,
        next == Next::Claim <==> !stopped && service.in_flight < service.bound(),
{
}

/// Input is handed on byte by byte, none of it twice, until the command no longer
/// takes it or there is no more.
pub proof fn law_input_is_handed_on_once(
    pump: &mut Pump,
    read: u64,
    taken: bool,
    ended: bool,
    again: bool,
)
    requires
        old(pump).offset + read <= u64::MAX,
        call_ensures(Pump::advance, (pump, read, taken, ended), again),
    ensures
        final(pump).offset == old(pump).offset + read,
        ended ==> !again,
        read > 0 && !taken ==> !again,
        !ended && (taken || read == 0) ==> again,
{
}

} // verus!

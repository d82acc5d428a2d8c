//! Attaching a process to a container.
//!
//! A container lives in the process that booted it. That process attaches
//! directly; any other asks it to, over the container's control socket.
use crate::engine::framework;
use crate::engine::model::{copy_text, ExecSpec};
use crate::paths;
use crate::paths::PathBuf;
use crate::text;
use vstd::prelude::*;

verus! {

/// How often a process asks whether its window changed size, in milliseconds.
pub const RESIZE_POLL: u64 = 100;

/// The owner's exec id; can't collide with a joiner's `attach-<n>`.
pub const OWNER_ATTACH: &'static str = "attach-owner";

/// What an attach that never ran reports. Outside the guest exit code range.
pub const FAILED: i32 = -1;

/// What a guest process is started with, resolved against the environment of
/// whoever asked for it.
#[derive(Debug, PartialEq, Eq)]
pub struct Request {
    pub arguments: Vec<String>,
    /// `NAME=VALUE`.
    pub environment: Vec<String>,
    pub user: Option<String>,
    pub working_directory: String,
}

/// A `Request`, its texts as sequences of characters.
#[verifier::ext_equal]
pub struct RequestView {
    pub arguments: Seq<Seq<char>>,
    pub environment: Seq<Seq<char>>,
    pub user: Option<Seq<char>>,
    pub working_directory: Seq<char>,
}

impl View for Request {
    type V = RequestView;

    open spec fn view(&self) -> RequestView {
        RequestView {
            arguments: text::views(self.arguments@),
            environment: text::views(self.environment@),
            user: text::view_of(self.user),
            working_directory: self.working_directory@,
        }
    }
}

/// The streams a guest process runs against.
#[derive(Clone, Copy, Debug, PartialEq, Eq, Structural)]
pub enum Streams {
    /// The caller's terminal: raw while attached, and resized with its window.
    Terminal,
    /// The caller's own streams, with its input or without.
    Inherited { input: bool },
}

/// Who attaches the process.
#[derive(Debug, PartialEq)]
pub enum Route {
    /// This process, which owns the container.
    Owner,
    /// The owner, asked through a control socket in that directory.
    Joiner(PathBuf),
}

/// How to attach a process.
#[derive(Debug, PartialEq)]
pub struct Attachment {
    pub request: Request,
    pub route: Route,
    pub streams: Streams,
}

/// How to attach a process, given the host's value of each of its variables,
/// whether this process owns the container, and which of the caller's streams are
/// terminals.
///
/// A terminal is the caller's to give, and it gives one only when both the
/// streams it interacts through are terminals. A piped prompt or a redirected
/// `run > log` leaves the guest without one, rather than writing a terminal's
/// escapes into whatever the caller redirected to.
pub fn attach(
    spec: &ExecSpec,
    host: &Vec<Option<String>>,
    owned: bool,
    stdin: bool,
    stdout: bool,
    runtime_dir: &PathBuf,
) -> (r: Attachment)
    requires
        spec.env@.len() == host@.len(),
    ensures
        r.request@ == (RequestView {
            arguments: spec@.arguments,
            environment: framework::assignments(spec@.env, framework::host_values(host@)),
            user: spec@.user,
            working_directory: match spec@.workdir {
                Some(path) => path,
                None => "/"@,
            },
        }),
        match r.route {
            Route::Owner => owned,
            Route::Joiner(directory) => !owned && directory@ == paths::joined(
                runtime_dir@,
                spec@.name,
            ),
        },
        r.streams == (if spec.tty && stdin && stdout {
            Streams::Terminal
        } else {
            Streams::Inherited { input: spec.interactive }
        }),
{
    let arguments = spec.arguments.clone();
    assert(arguments@ =~= spec.arguments@);
    let request = Request {
        arguments,
        environment: framework::environment(&spec.env, host),
        user: copy_text(&spec.user),
        working_directory: framework::working_directory(&spec.workdir),
    };
    let route = if owned {
        Route::Owner
    } else {
        Route::Joiner(runtime_dir.join(spec.name.as_str()))
    };
    let streams = if spec.tty && stdin && stdout {
        Streams::Terminal
    } else {
        Streams::Inherited { input: spec.interactive }
    };
    Attachment { request, route, streams }
}

/// What a joiner is answered, and what is reported beside it: an attach asked for
/// over the control socket has no call to return an error to, so a failure comes
/// back as the code reserved for one.
pub fn answer(attached: Result<i32, String>) -> (r: (i32, Option<String>))
    ensures
        r == (match attached {
            Ok(code) => (code, None::<String>),
            Err(reason) => (FAILED, Some(reason)),
        }),
{
    match attached {
        Ok(code) => (code, None),
        Err(reason) => (FAILED, Some(reason)),
    }
}

/// What is attached is what was asked for, with the host's values of its variables. It
/// gets the caller's terminal exactly where it asks for one and both the caller's
/// input and output are one; only the container's owner attaches it itself.
pub proof fn law_a_terminal_is_given_only_where_there_is_one(
    spec: &ExecSpec,
    host: &Vec<Option<String>>,
    owned: bool,
    stdin: bool,
    stdout: bool,
    runtime_dir: &PathBuf,
    attachment: Attachment,
)
    requires
        spec.env@.len() == host@.len(),
        call_ensures(attach, (spec, host, owned, stdin, stdout, runtime_dir), attachment),
    ensures
        attachment.streams == Streams::Terminal <==> spec.tty && stdin && stdout,
        attachment.streams matches Streams::Inherited { input } ==> input == spec.interactive,
        attachment.route == Route::Owner <==> owned,
        attachment.route matches Route::Joiner(directory) ==> directory@ == paths::joined(
            runtime_dir@,
            spec.name@,
        ),
        text::views(attachment.request.arguments@) == text::views(spec.arguments@),
        text::view_of(attachment.request.user) == text::view_of(spec.user),
        spec.workdir matches Some(path) ==> attachment.request.working_directory@ == path@,
        spec.workdir is None ==> attachment.request.working_directory@ == "/"@,
{
    assert(attachment.request@.arguments == text::views(attachment.request.arguments@));
}

/// A joiner is answered the process's own code, or the code of a failure beside its
/// reason.
pub proof fn law_a_failure_to_attach_is_told_apart(
    attached: Result<i32, String>,
    answered: (i32, Option<String>),
)
    requires
        call_ensures(answer, (attached,), answered),
    ensures
        answered.1 is Some <==> attached is Err,
        attached matches Ok(code) ==> answered.0 == code,
        attached matches Err(reason) ==> answered.0 == FAILED && answered.1 == Some(reason),
{
}

} // verus!

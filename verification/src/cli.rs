//! What each command of the command line says, and how it ends.
use crate::assistant;
use crate::assistant::Assistant;
use crate::paths;
use crate::paths::{PathBuf, PathResolver};
use crate::session::image;
use crate::session::run::{Notice, NoticeView, Process, ProcessView};
use crate::session::{AddOutcome, Session};
use crate::text;
use crate::workspace::danger;
use crate::workspace::{Entry, EntryView, Origin};
use vstd::prelude::*;

verus! {

/// Asks for an engine other than the default.
pub const ENGINE_VARIABLE: &'static str = "COMPOSTBIN_ENGINE";

/// A line for the terminal.
#[derive(Debug, PartialEq, Eq)]
pub struct Line {
    /// Whether it goes to stderr rather than stdout.
    pub error: bool,
    pub text: String,
}

/// A `Line`, its text as a sequence of characters.
#[verifier::ext_equal]
pub struct LineView {
    pub error: bool,
    pub text: Seq<char>,
}

impl View for Line {
    type V = LineView;

    open spec fn view(&self) -> LineView {
        LineView { error: self.error, text: self.text@ }
    }
}

// ---------------------------------------------------------------------------
// Notices
// ---------------------------------------------------------------------------

/// What is said of a notice.
pub open spec fn notified(name: Seq<char>, notice: NoticeView) -> LineView {
    match notice {
        NoticeView::NotInKeychain => LineView {
            error: true,
            text: "no \""@ + assistant::keychain_service(name)
                + "\" entry in the login Keychain; the session will need ANTHROPIC_API_KEY or an interactive login"@,
        },
        NoticeView::Shared(names) => LineView {
            error: false,
            text: "shared from your own "@ + assistant::host_home(name) + ": "@ + text::join(names, ", "@),
        },
        NoticeView::Port(event) => LineView {
            error: true,
            text: "compostbin: "@ + event.sentence(),
        },
        NoticeView::Unpacking(image) => LineView {
            error: true,
            text: "compostbin: unpacking "@ + image,
        },
        NoticeView::SetupFailed { line, code } => LineView {
            error: true,
            text: "compostbin: setup `"@ + line + "` exited "@ + text::signed(code as int),
        },
        NoticeView::AgentStopped(error) => LineView {
            error: true,
            text: "compostbin: the host command agent stopped: "@ + error.sentence(),
        },
        NoticeView::CleanupFailed(error) => LineView {
            error: true,
            text: "compostbin: could not clean up after the session: "@ + error.sentence(),
        },
    }
}

/// What is said of a notice.
pub fn notify(assistant: &Assistant, notice: &Notice) -> (r: Line)
    ensures
        r@ == notified(assistant@, notice@),
{
    match notice {
        Notice::NotInKeychain => {
            let mut text = "no \"".to_string();
            text.append(assistant.keychain_service().as_str());
            text.append(
                "\" entry in the login Keychain; the session will need ANTHROPIC_API_KEY or an interactive login",
            );
            Line { error: true, text }
        },
        Notice::Shared(names) => {
            let mut text = "shared from your own ".to_string();
            text.append(assistant.host_home().as_str());
            text.append(": ");
            text.append(text::joined(names, ", ").as_str());
            Line { error: false, text }
        },
        Notice::Port(event) => {
            let mut text = "compostbin: ".to_string();
            text.append(event.to_string().as_str());
            Line { error: true, text }
        },
        Notice::Unpacking(image) => {
            let mut text = "compostbin: unpacking ".to_string();
            text.append(image.as_str());
            Line { error: true, text }
        },
        Notice::SetupFailed { line, code } => {
            let mut text = "compostbin: setup `".to_string();
            text.append(line.as_str());
            text.append("` exited ");
            text.append(text::signed_text(*code).as_str());
            Line { error: true, text }
        },
        Notice::AgentStopped(error) => {
            let mut text = "compostbin: the host command agent stopped: ".to_string();
            text.append(error.to_string().as_str());
            Line { error: true, text }
        },
        Notice::CleanupFailed(error) => {
            let mut text = "compostbin: could not clean up after the session: ".to_string();
            text.append(error.to_string().as_str());
            Line { error: true, text }
        },
    }
}

// ---------------------------------------------------------------------------
// Adding
// ---------------------------------------------------------------------------

/// Whether a path is refused: it is dangerous to mount, and nothing says to mount
/// it anyway.
pub open spec fn is_refused(path: Seq<char>, resolver: &PathResolver, force: bool) -> bool {
    danger::verdict(path, resolver) is Some && !force
}

/// What is said where a path is refused.
pub open spec fn refusal_of(path: Seq<char>, found: danger::DangerView) -> Seq<LineView> {
    seq![
        LineView {
            error: true,
            text: "refusing to mount "@ + path + ": "@ + danger::sentence_of(found),
        },
        LineView { error: true, text: "pass --force if that is really what you want"@ },
    ]
}

/// Why a canonical path is refused, or `None` where it is not.
///
/// A guardrail against slips, not a security boundary (the container has the
/// user's privileges anyway), hence `--force`.
pub fn refusal(path: &PathBuf, resolver: &PathResolver, force: bool) -> (r: Option<Vec<Line>>)
    ensures
        match r {
            Some(lines) => is_refused(path@, resolver, force) && text::views(lines@) == refusal_of(
                path@,
                danger::verdict(path@, resolver)->0,
            ),
            None => !is_refused(path@, resolver, force),
        },
{
    match danger::danger(path, resolver) {
        Some(found) => {
            if force {
                return None;
            }
            let mut first = "refusing to mount ".to_string();
            first.append(path.as_str());
            first.append(": ");
            first.append(found.to_string().as_str());
            let mut lines: Vec<Line> = Vec::new();
            lines.push(Line { error: true, text: first });
            lines.push(
                Line {
                    error: true,
                    text: "pass --force if that is really what you want".to_string(),
                },
            );
            assert(text::views(lines@) =~= refusal_of(path@, found@));
            Some(lines)
        },
        None => None,
    }
}

/// What is said once a path was added.
pub fn added(path: &PathBuf, outcome: &AddOutcome) -> (r: Line)
    ensures
        r@ == (match outcome {
            AddOutcome::AlreadyMounted { root } => LineView {
                error: false,
                text: path@ + " is already mounted under "@ + root@,
            },
            AddOutcome::NeedsRestart => LineView {
                error: false,
                text: path@
                    + " recorded; exit the running session and `compostbin run -- --continue` to mount it"@,
            },
        }),
{
    let mut text = path.display();
    match outcome {
        AddOutcome::AlreadyMounted { root } => {
            text.append(" is already mounted under ");
            text.append(root.as_str());
        },
        AddOutcome::NeedsRestart => {
            text.append(
                " recorded; exit the running session and `compostbin run -- --continue` to mount it",
            );
        },
    }
    Line { error: false, text }
}

// ---------------------------------------------------------------------------
// Listing
// ---------------------------------------------------------------------------

/// What an origin is called.
pub open spec fn origin_of(origin: Origin) -> Seq<char> {
    match origin {
        Origin::Explicit => "explicit"@,
        Origin::Local => "local"@,
        Origin::Project => "project"@,
        Origin::Root => "in-root"@,
    }
}

/// The line that lists an entry of the workspace.
pub open spec fn entry_line(entry: EntryView) -> Seq<char> {
    entry.host + " -> "@ + entry.guest + " ("@ + origin_of(entry.origin) + (if entry.readonly {
        ", readonly"@
    } else {
        Seq::empty()
    }) + ")"@
}

/// The lines that list what a session mounts.
pub open spec fn listing(session: &Session) -> Seq<Seq<char>> {
    session.exposed().map_values(|entry: EntryView| entry_line(entry)).push(
        session.home() + " -> "@ + assistant::guest_home(session.assistant@) + " ("@
            + session.assistant@ + " home)"@,
    )
}

fn list_entry(entry: &Entry) -> (r: String)
    ensures
        r@ == entry_line(entry@),
{
    let mut out = entry.host.display();
    out.append(" -> ");
    out.append(entry.guest.as_str());
    out.append(" (");
    match entry.origin {
        Origin::Explicit => out.append("explicit"),
        Origin::Local => out.append("local"),
        Origin::Project => out.append("project"),
        Origin::Root => out.append("in-root"),
    }
    if entry.readonly {
        out.append(", readonly");
    }
    out.append(")");
    assert(out@ =~= entry_line(entry@));
    out
}

/// Lists what a session mounts: each host path, where it appears in the guest, and
/// why it is there.
pub fn ls(session: &Session) -> (r: Vec<String>)
    ensures
        text::views(r@) == listing(session),
{
    let workspace = session.workspace();
    let entries = workspace.entries();
    let ghost all = session.exposed();
    let mut out: Vec<String> = Vec::new();
    let mut i: usize = 0;
    assert(entries@.len() == text::views(entries@).len());
    while i < entries.len()
        invariant
            i <= entries@.len(),
            all == text::views(entries@),
            out@.len() == i,
            forall|j: int| 0 <= j < i ==> (#[trigger] out@[j])@ == entry_line(all[j]),
        decreases entries.len() - i,
    {
        assert(all[i as int] == entries@[i as int]@);
        out.push(list_entry(&entries[i]));
        i = i + 1;
    }
    let mut home = session.claude_home().display();
    home.append(" -> ");
    home.append(session.assistant.guest_home().as_str());
    home.append(" (");
    home.append(session.assistant.name.as_str());
    home.append(" home)");
    out.push(home);
    assert(text::views(out@) =~= listing(session));
    out
}

// ---------------------------------------------------------------------------
// Other commands
// ---------------------------------------------------------------------------

/// What is said of a path that was cleaned: that it was cleared, or, with all of a
/// session's state, removed.
pub fn cleaned(all: bool, path: &PathBuf) -> (r: String)
    ensures
        r@ == (if all {
            "removed "@
        } else {
            "cleared "@
        }) + path@,
{
    let mut out = if all {
        "removed ".to_string()
    } else {
        "cleared ".to_string()
    };
    out.append(path.as_str());
    out
}

/// What is said of a manifest that was written.
pub fn wrote(path: &PathBuf) -> (r: String)
    ensures
        r@ == "wrote "@ + path@,
{
    let mut out = "wrote ".to_string();
    out.append(path.as_str());
    out
}

/// Says what a build is about to do.
pub fn building(session: &Session) -> (r: Vec<String>)
    ensures
        text::views(r@) == seq![
            "building "@ + session.manifest.project.image@ + " into "@
                + session.resolver.leads_to("~/.cache/compostbin/images"@),
        ] + (if session.manifest.image.adds_nothing() {
            Seq::empty()
        } else {
            seq!["then "@ + session.image_name()]
        }),
{
    let mut first = "building ".to_string();
    first.append(session.manifest.project.image.as_str());
    first.append(" into ");
    first.append(image::store(session).as_str());
    let mut out: Vec<String> = Vec::new();
    out.push(first);
    if !session.manifest.image.is_empty() {
        let mut then = "then ".to_string();
        then.append(session.image().as_str());
        out.push(then);
        assert(text::views(out@) =~= seq![first@] + seq!["then "@ + session.image_name()]);
    } else {
        assert(text::views(out@) =~= seq![first@] + Seq::empty());
    }
    out
}

/// The process that `run` attaches: the assistant, or another entrypoint, as a guest user.
pub fn entrypoint(
    assistant: &Assistant,
    program: Option<&str>,
    arguments: &Vec<String>,
    user: &str,
) -> (r: Process)
    ensures
        r@ == (ProcessView {
            arguments: seq![
                match program {
                    Some(program) => program@,
                    None => assistant@,
                },
            ] + text::views(arguments@),
            tty: true,
            user: Some(user@),
        }),
{
    let mut process = Process::claude(assistant, arguments);
    match program {
        Some(program) => {
            let ghost before = process.arguments@;
            assert(before.len() == process@.arguments.len());
            process.arguments.set(0, program.to_string());
            assert(text::views(process.arguments@) =~= text::views(before).update(0, program@));
        },
        None => {},
    }
    process.user = Some(user.to_string());
    assert(process@.arguments =~= seq![
        match program {
            Some(program) => program@,
            None => assistant@,
        },
    ] + text::views(arguments@));
    process
}

/// Whether a process can be attached to the terminals there are.
///
/// A terminal asked for is a terminal required: this side can only pass on one
/// it has, and silently running without would leave whatever wanted it (a
/// shell, anything drawing a UI) with pipes and no way to say so.
pub fn attachable(process: &Process, stdin: bool, stdout: bool) -> (r: Result<(), String>)
    ensures
        match r {
            Ok(()) => process.tty ==> stdin && stdout,
            Err(message) => process.tty && !(stdin && stdout) && message@
                == "compostbin: -t needs a terminal on stdin and stdout"@,
        },
{
    if process.tty && !(stdin && stdout) {
        return Err("compostbin: -t needs a terminal on stdin and stdout".to_string());
    }
    Ok(())
}

/// The status that the program exits with: the code a session came to, or 1 where
/// that is no status.
pub fn exit_status(code: i32) -> (r: u8)
    ensures
        r == (if 0 <= code <= 255 {
            code as int
        } else {
            1
        }),
{
    if 0 <= code && code <= 255 {
        code as u8
    } else {
        1
    }
}

/// Whether the framework engine was asked for.
pub fn framework_selected(variable: Option<&str>) -> (r: bool)
    ensures
        r == (variable matches Some(value) && value@ == "framework"@),
{
    match variable {
        Some(value) => text::same(value, "framework"),
        None => false,
    }
}

// ---------------------------------------------------------------------------
// Laws
// ---------------------------------------------------------------------------

/// `add` never refuses what is forced, and refuses anything inside a sensitive
/// path that is not.
pub proof fn law_secrets_are_refused_unless_forced(
    path: Seq<char>,
    inside: Seq<char>,
    resolver: &PathResolver,
)
    requires
        danger::is_sensitive(path, resolver),
        paths::within(inside, path),
    ensures
        is_refused(inside, resolver, false),
        !is_refused(inside, resolver, true),
{
    danger::law_inside_a_sensitive_path_is_sensitive(path, inside, resolver);
}

/// `add` refuses a path that is not forced if and only if mounting it is dangerous:
/// it lies inside some sensitive path, or it is some broad path.
pub proof fn law_dangerous_paths_alone_are_refused(path: Seq<char>, resolver: &PathResolver)
    ensures
        is_refused(path, resolver, false) <==> (exists|i: int|
            0 <= i < danger::SENSITIVE_PATHS@.len() && paths::within(
                path,
                resolver.leads_to(#[trigger] danger::SENSITIVE_PATHS@[i]@),
            )) || (exists|i: int|
            0 <= i < danger::BROAD_PATHS@.len() && paths::same_place(
                path,
                resolver.leads_to(#[trigger] danger::BROAD_PATHS@[i]@),
            )),
        !is_refused(path, resolver, true),
{
    danger::law_only_dangerous_paths_have_a_verdict(path, resolver);
    if let Some(found) = danger::verdict(path, resolver) {
        match found {
            danger::DangerView::Sensitive(at) => {
                let i = choose|i: int|
                    0 <= i < danger::SENSITIVE_PATHS@.len() && at == resolver.leads_to(
                        #[trigger] danger::SENSITIVE_PATHS@[i]@,
                    );
                assert(paths::within(path, resolver.leads_to(danger::SENSITIVE_PATHS@[i]@)));
            },
            danger::DangerView::Broad(at) => {
                let i = choose|i: int|
                    0 <= i < danger::BROAD_PATHS@.len() && at == resolver.leads_to(
                        #[trigger] danger::BROAD_PATHS@[i]@,
                    );
                assert(paths::same_place(path, resolver.leads_to(danger::BROAD_PATHS@[i]@)));
            },
        }
    }
}

/// A refusal names the path that was refused and what it is inside of, or is, and
/// says how to mount it anyway.
pub proof fn law_a_refusal_says_what_and_why(path: Seq<char>, found: danger::DangerView)
    ensures
        refusal_of(path, found).len() == 2,
        ("refusing to mount "@ + path).is_prefix_of(refusal_of(path, found)[0].text),
        ({
            let at = match found {
                danger::DangerView::Sensitive(at) => at,
                danger::DangerView::Broad(at) => at,
            };
            text::contains_text(refusal_of(path, found)[0].text, at)
        }),
        text::contains_text(refusal_of(path, found)[1].text, "--force"@),
        refusal_of(path, found)[0].error && refusal_of(path, found)[1].error,
{
    let first = refusal_of(path, found)[0].text;
    let head = "refusing to mount "@ + path;
    assert(head =~= first.subrange(0, head.len() as int));
    let at = match found {
        danger::DangerView::Sensitive(at) => at,
        danger::DangerView::Broad(at) => at,
    };
    let from = (head + ": "@).len() as int;
    assert(first.subrange(from, from + at.len()) =~= at);
    reveal_strlit("pass --force if that is really what you want");
    reveal_strlit("--force");
    let second = refusal_of(path, found)[1].text;
    assert(second.subrange(5int, 5int + "--force"@.len() as int) =~= "--force"@);
}

/// Everything that a session mounts is listed, in order: each path with where it
/// appears, why it is there and whether it can be written, and then the assistant's
/// home.
pub proof fn law_everything_mounted_is_listed(session: &Session, i: int)
    requires
        0 <= i < session.exposed().len(),
    ensures
        listing(session).len() == session.exposed().len() + 1,
        ({
            let entry = session.exposed()[i];
            let why = match entry.origin {
                Origin::Explicit => "explicit"@,
                Origin::Local => "local"@,
                Origin::Project => "project"@,
                Origin::Root => "in-root"@,
            };
            listing(session)[i] == entry.host + " -> "@ + entry.guest + (if entry.readonly {
                " ("@ + why + ", readonly)"@
            } else {
                " ("@ + why + ")"@
            })
        }),
        (session.home() + " -> "@ + assistant::guest_home(session.assistant@)).is_prefix_of(
            listing(session).last(),
        ),
{
    let entry = session.exposed()[i];
    let why = origin_of(entry.origin);
    reveal_strlit(", readonly");
    reveal_strlit(", readonly)");
    reveal_strlit(")");
    assert(", readonly"@ + ")"@ =~= ", readonly)"@);
    assert(entry_line(entry) =~= entry.host + " -> "@ + entry.guest + (if entry.readonly {
        " ("@ + why + ", readonly)"@
    } else {
        " ("@ + why + ")"@
    }));
    let home = session.home() + " -> "@ + assistant::guest_home(session.assistant@);
    assert(home =~= listing(session).last().subrange(0, home.len() as int));
}

/// Only what was shared is told as output; everything else that is told along the
/// way goes to the error stream, and names what it is about.
pub proof fn law_notices_say_what_they_are_about(name: Seq<char>, notice: NoticeView)
    ensures
        notified(name, notice).error <==> !(notice is Shared),
        ({
            let said = notified(name, notice).text;
            match notice {
                NoticeView::NotInKeychain => text::contains_text(
                    said,
                    assistant::keychain_service(name),
                ),
                NoticeView::Shared(names) => text::join(names, ", "@).is_suffix_of(said),
                NoticeView::Port(event) => event.sentence().is_suffix_of(said),
                NoticeView::Unpacking(image) => image.is_suffix_of(said),
                NoticeView::SetupFailed { line, code } => text::contains_text(said, line)
                    && text::signed(code as int).is_suffix_of(said),
                NoticeView::AgentStopped(error) => error.sentence().is_suffix_of(said),
                NoticeView::CleanupFailed(error) => error.sentence().is_suffix_of(said),
            }
        }),
{
    let said = notified(name, notice).text;
    match notice {
        NoticeView::NotInKeychain => {
            let at = assistant::keychain_service(name);
            let from = "no \""@.len() as int;
            assert(said.subrange(from, from + at.len()) =~= at);
        },
        NoticeView::Shared(names) => {
            let end = text::join(names, ", "@);
            assert(end =~= said.subrange(said.len() - end.len(), said.len() as int));
        },
        NoticeView::Port(event) => {
            let end = event.sentence();
            assert(end =~= said.subrange(said.len() - end.len(), said.len() as int));
        },
        NoticeView::Unpacking(image) => {
            assert(image =~= said.subrange(said.len() - image.len(), said.len() as int));
        },
        NoticeView::SetupFailed { line, code } => {
            let from = "compostbin: setup `"@.len() as int;
            assert(said.subrange(from, from + line.len()) =~= line);
            let end = text::signed(code as int);
            assert(end =~= said.subrange(said.len() - end.len(), said.len() as int));
        },
        NoticeView::AgentStopped(error) => {
            let end = error.sentence();
            assert(end =~= said.subrange(said.len() - end.len(), said.len() as int));
        },
        NoticeView::CleanupFailed(error) => {
            let end = error.sentence();
            assert(end =~= said.subrange(said.len() - end.len(), said.len() as int));
        },
    }
}

/// A process that wants a terminal is refused exactly where input or output is none.
pub proof fn law_a_terminal_asked_for_is_required(
    process: &Process,
    stdin: bool,
    stdout: bool,
    r: Result<(), String>,
)
    requires
        call_ensures(attachable, (process, stdin, stdout), r),
    ensures
        r is Err <==> process.tty && (!stdin || !stdout),
{
}

/// What `run` attaches is the program that was named, or else the assistant, with all
/// of its arguments and as the user that was asked for.
pub proof fn law_run_attaches_what_was_named(
    assistant: &Assistant,
    program: Option<&str>,
    arguments: &Vec<String>,
    user: &str,
    process: Process,
    i: int,
)
    requires
        call_ensures(entrypoint, (assistant, program, arguments, user), process),
    ensures
        process@.arguments.len() == arguments@.len() + 1,
        program matches Some(program) ==> process@.arguments[0] == program@,
        program is None ==> process@.arguments[0] == assistant@,
        0 <= i < arguments@.len() ==> process@.arguments[i + 1] == arguments@[i]@,
        process@.user == Some(user@),
        process@.tty,
{
    if 0 <= i < arguments@.len() {
        assert(text::views(arguments@)[i] == arguments@[i]@);
    }
}

/// The program exits with the code a session came to, wherever that is a status, and
/// never says that it succeeded where it did not.
pub proof fn law_the_program_exits_with_the_sessions_code(code: i32, status: u8)
    requires
        call_ensures(exit_status, (code,), status),
    ensures
        0 <= code <= 255 ==> status == code,
        status == 0 <==> code == 0,
{
}

} // verus!

//! What a session is told about itself, mounted read-only as the assistant's managed
//! settings.
//!
//! A container looks like an ordinary Debian box from the inside: nothing about
//! `/workspace` says the toolchain is missing on purpose, or that `compostbin-host`
//! is the way out to the host. So the session says it, on every start, from the
//! manifest, generated rather than written by hand, because prose repeating an
//! allowlist drifts from it.
//!
//! Managed settings rather than `settings.json`, which is copied from the host's
//! own and would be overwritten; that file is the user's, and this is
//! not.
use crate::assistant;
use crate::assistant::Assistant;
use crate::manifest::commands::{Commands, HostCommand, HostCommandView};
use crate::manifest::{Manifest, MANIFEST_RELATIVE_PATH};
use crate::paths;
use crate::paths::PathBuf;
use crate::text;
use vstd::prelude::*;

verus! {

pub const MANAGED_SETTINGS_FILE: &'static str = "managed-settings.json";

/// Beside the settings that name it, so one mount carries both.
pub const BRIEFING_FILE: &'static str = "session-context.txt";

/// Where the session is.
pub const INTRODUCTION: &'static str = "This session is running inside a compostbin container. It is a Debian guest with no project toolchain installed: only the host paths mounted under /workspace are visible, and edits to them land directly on the host.\n\n";

/// What a session without host commands is told, up to the manifest's path.
pub const NO_CHANNEL: &'static str = "This project declares no host commands, so there is no path out to the host at all. Anything that has to run, runs in the guest — or gets a [host.commands] entry in ";

/// What a session with host commands is told before they are listed.
pub const CHANNEL: &'static str = "Builds and tests run on the host, through `compostbin-host <name>`. It behaves as though this shell had run the command: stdin goes to it, stdout and stderr come back on ours, and its exit status is ours. Prefer it over running the underlying tool here, which is not installed.\n\nThis project declares:\n\n";

/// What follows the listed commands, up to the manifest's path.
pub const OTHERWISE: &'static str = "\nA command not on that list has no host path. Run it in the guest, or add it to [host.commands] in ";

/// What follows the manifest's path.
pub const RESTART: &'static str = " — which takes a restart to serve.\n";

pub const WIDENED: &'static str = "takes further arguments";

pub const TERMINAL: &'static str = "runs under a tty when your stdout is a terminal, merging stderr into stdout";

/// The width of the column of names: that of the longest, in bytes.
pub open spec fn width_of(entries: Seq<(Seq<char>, HostCommandView)>) -> nat
    decreases entries.len(),
{
    if entries.len() == 0 {
        0
    } else {
        let rest = width_of(entries.drop_last());
        let last = text::byte_len(entries.last().0);
        if last > rest {
            last
        } else {
            rest
        }
    }
}

/// The two ways a command differs from exact.
pub open spec fn notes_of(command: HostCommandView) -> Seq<char> {
    if command.arguments && command.tty {
        "  ("@ + WIDENED@ + "; "@ + TERMINAL@ + ")"@
    } else if command.arguments {
        "  ("@ + WIDENED@ + ")"@
    } else if command.tty {
        "  ("@ + TERMINAL@ + ")"@
    } else {
        Seq::empty()
    }
}

/// The line that lists a command: its name, padded to the column, what actually
/// runs, and the notes.
pub open spec fn line_of(entry: (Seq<char>, HostCommandView), width: nat) -> Seq<char> {
    "  compostbin-host "@ + text::padded(entry.0, width) + "  "@ + text::join(
        entry.1.argv,
        " "@,
    ) + notes_of(entry.1) + "\n"@
}

/// The lines that list commands.
pub open spec fn lines_of(entries: Seq<(Seq<char>, HostCommandView)>, width: nat) -> Seq<char>
    decreases entries.len(),
{
    if entries.len() == 0 {
        Seq::empty()
    } else {
        lines_of(entries.drop_last(), width) + line_of(entries.last(), width)
    }
}

/// The briefing: where the session is, and every host command it may ask for.
pub open spec fn briefing_of(
    channel: bool,
    commands: Seq<(Seq<char>, HostCommandView)>,
) -> Seq<char> {
    if !channel {
        INTRODUCTION@ + NO_CHANNEL@ + MANIFEST_RELATIVE_PATH@ + ".\n"@
    } else {
        INTRODUCTION@ + CHANNEL@ + lines_of(commands, width_of(commands)) + OTHERWISE@
            + MANIFEST_RELATIVE_PATH@ + RESTART@
    }
}

/// The settings that print the briefing at the start of a session.
pub fn managed_settings(assistant: &Assistant) -> (r: String)
    ensures
        r@ == assistant::settings(assistant@),
{
    assistant.settings()
}

fn width(commands: &Commands) -> (r: usize)
    ensures
        r == width_of(commands@),
{
    let mut widest: usize = 0;
    let mut i: usize = 0;
    while i < commands.len()
        invariant
            i <= commands@.len(),
            widest == width_of(commands@.take(i as int)),
        decreases commands@.len() - i,
    {
        assert(commands@.take(i + 1).drop_last() =~= commands@.take(i as int));
        assert(commands@.take(i + 1).last() == commands@[i as int]);
        let bytes: usize = commands.name_at(i).as_str().as_bytes().len();
        if bytes > widest {
            widest = bytes;
        }
        i = i + 1;
    }
    assert(commands@.take(i as int) =~= commands@);
    widest
}

fn line(name: &str, command: &HostCommand, width: usize) -> (r: String)
    ensures
        r@ == line_of((name@, command@), width as nat),
{
    let mut out = "  compostbin-host ".to_string();
    out.append(text::pad(name, width).as_str());
    out.append("  ");
    out.append(text::joined(&command.argv, " ").as_str());
    let ghost before = out@;
    let mut notes = String::new();
    if command.arguments && command.tty {
        notes = "  (".to_string();
        notes.append(WIDENED);
        notes.append("; ");
        notes.append(TERMINAL);
        notes.append(")");
    } else if command.arguments {
        notes = "  (".to_string();
        notes.append(WIDENED);
        notes.append(")");
    } else if command.tty {
        notes = "  (".to_string();
        notes.append(TERMINAL);
        notes.append(")");
    }
    assert(notes@ == notes_of(command@));
    out.append(notes.as_str());
    out.append("\n");
    out
}

/// The briefing itself: where the session is, and every host command it may ask
/// for, rendered from the manifest that serves them.
pub fn briefing(manifest: &Manifest) -> (r: String)
    ensures
        r@ == briefing_of(manifest.host.serves_commands(), manifest.host.commands@),
{
    let mut out = INTRODUCTION.to_string();
    if !manifest.host.has_commands() {
        out.append(NO_CHANNEL);
        out.append(MANIFEST_RELATIVE_PATH);
        out.append(".\n");
        return out;
    }
    out.append(CHANNEL);
    let commands = &manifest.host.commands;
    let column: usize = width(commands);
    let ghost start = out@;
    let mut i: usize = 0;
    assert(out@ =~= start + lines_of(commands@.take(0), column as nat));
    while i < commands.len()
        invariant
            i <= commands@.len(),
            out@ == start + lines_of(commands@.take(i as int), column as nat),
        decreases commands@.len() - i,
    {
        assert(commands@.take(i + 1).drop_last() =~= commands@.take(i as int));
        assert(commands@.take(i + 1).last() == commands@[i as int]);
        let shown = line(commands.name_at(i).as_str(), commands.command_at(i), column);
        out.append(shown.as_str());
        assert(out@ =~= start + lines_of(commands@.take(i + 1), column as nat));
        i = i + 1;
    }
    assert(commands@.take(i as int) =~= commands@);
    out.append(OTHERWISE);
    out.append(MANIFEST_RELATIVE_PATH);
    out.append(RESTART);
    out
}

/// A file to write: where, and what.
#[derive(Debug, PartialEq)]
pub struct Written {
    pub contents: String,
    pub path: PathBuf,
}

/// A `Written`, its texts as sequences of characters.
#[verifier::ext_equal]
pub struct WrittenView {
    pub contents: Seq<char>,
    pub path: Seq<char>,
}

impl View for Written {
    type V = WrittenView;

    open spec fn view(&self) -> WrittenView {
        WrittenView { contents: self.contents@, path: self.path@ }
    }
}

/// What goes into the managed settings directory: the settings, and the
/// briefing they print. Written before the container starts, since the mount
/// source must exist by then and the guest cannot create it.
pub fn write(assistant: &Assistant, directory: &PathBuf, manifest: &Manifest) -> (r: (
    Written,
    Written,
))
    ensures
        r.0.path@ == paths::joined(directory@, "managed-settings.json"@),
        r.0.contents@ == assistant::settings(assistant@),
        r.1.path@ == paths::joined(directory@, "session-context.txt"@),
        r.1.contents@ == briefing_of(manifest.host.serves_commands(), manifest.host.commands@),
{
    (
        Written {
            contents: managed_settings(assistant),
            path: directory.join(MANAGED_SETTINGS_FILE),
        },
        Written { contents: briefing(manifest), path: directory.join(BRIEFING_FILE) },
    )
}

/// Every declared command has a line of its own in the briefing.
pub proof fn law_every_declared_command_is_listed(
    commands: Seq<(Seq<char>, HostCommandView)>,
    i: int,
)
    requires
        0 <= i < commands.len(),
    ensures
        text::contains_text(
            briefing_of(true, commands),
            line_of(commands[i], width_of(commands)),
        ),
{
    let width = width_of(commands);
    let listed = lines_of(commands, width);
    let line = line_of(commands[i], width);
    lemma_listed(commands, width, i);
    let at = choose|at: int|
        0 <= at <= listed.len() - line.len() && #[trigger] listed.subrange(at, at + line.len())
            == line;
    let before = INTRODUCTION@ + CHANNEL@;
    let whole = briefing_of(true, commands);
    let from = before.len() + at;
    assert(whole.subrange(from, from + line.len()) =~= listed.subrange(at, at + line.len()));
}

proof fn lemma_listed(commands: Seq<(Seq<char>, HostCommandView)>, width: nat, i: int)
    requires
        0 <= i < commands.len(),
    ensures
        text::contains_text(lines_of(commands, width), line_of(commands[i], width)),
    decreases commands.len(),
{
    let listed = lines_of(commands, width);
    let line = line_of(commands[i], width);
    let rest = commands.drop_last();
    let earlier = lines_of(rest, width);
    if i == commands.len() - 1 {
        let at = earlier.len() as int;
        assert(listed.subrange(at, at + line.len()) =~= line);
    } else {
        lemma_listed(rest, width, i);
        assert(rest[i] == commands[i]);
        let at = choose|at: int|
            0 <= at <= earlier.len() - line.len() && #[trigger] earlier.subrange(
                at,
                at + line.len(),
            ) == line;
        assert(listed.subrange(at, at + line.len()) =~= earlier.subrange(at, at + line.len()));
    }
}

/// A listed command is listed by the name the guest asks for, and by what runs; that
/// it takes arguments, and that it runs under a terminal, is said exactly where it
/// does either.
pub proof fn law_a_listed_command_says_what_runs(
    name: Seq<char>,
    command: HostCommandView,
    width: nat,
)
    ensures
        ({
            let line = line_of((name, command), width);
            &&& ("  compostbin-host "@ + name).is_prefix_of(line)
            &&& text::contains_text(line, text::join(command.argv, " "@))
            &&& command.arguments ==> text::contains_text(line, "takes further arguments"@)
            &&& command.tty ==> text::contains_text(line, TERMINAL@)
            &&& !command.arguments && !command.tty ==> ("  "@ + text::join(command.argv, " "@)
                + "\n"@).is_suffix_of(line)
        }),
{
    let line = line_of((name, command), width);
    let head = "  compostbin-host "@ + name;
    let padded = text::padded(name, width);
    let runs = text::join(command.argv, " "@);
    assert(head =~= line.subrange(0, head.len() as int));
    let at = ("  compostbin-host "@ + padded + "  "@).len() as int;
    assert(line.subrange(at, at + runs.len()) =~= runs);
    let notes = at + runs.len() + "  ("@.len();
    if command.arguments {
        assert(line.subrange(notes, notes + WIDENED@.len()) =~= WIDENED@);
    }
    if command.tty {
        let from = if command.arguments {
            notes + WIDENED@.len() + "; "@.len()
        } else {
            notes
        };
        assert(line.subrange(from, from + TERMINAL@.len()) =~= TERMINAL@);
    }
    if !command.arguments && !command.tty {
        let end = "  "@ + runs + "\n"@;
        assert(end =~= line.subrange(line.len() - end.len(), line.len() as int));
    }
}

/// The column of names is as wide as the longest of them, and no wider.
pub proof fn law_the_column_fits_the_longest_name(
    entries: Seq<(Seq<char>, HostCommandView)>,
    i: int,
)
    requires
        0 <= i < entries.len(),
    ensures
        text::byte_len(entries[i].0) <= width_of(entries),
        exists|k: int|
            0 <= k < entries.len() && text::byte_len((#[trigger] entries[k]).0) == width_of(
                entries,
            ),
    decreases entries.len(),
{
    let rest = entries.drop_last();
    assert(entries[entries.len() - 1] == entries.last());
    if rest.len() > 0 {
        law_the_column_fits_the_longest_name(
            rest,
            if i < rest.len() {
                i
            } else {
                0
            },
        );
        let k = choose|k: int|
            0 <= k < rest.len() && text::byte_len((#[trigger] rest[k]).0) == width_of(rest);
        assert(entries[k] == rest[k]);
        if i < rest.len() {
            assert(rest[i] == entries[i]);
        }
    } else {
        assert(width_of(rest) == 0);
    }
}

} // verus!

//! What the guest asked for, and whether it is allowed.
use crate::error::{Refusal, RefusalView};
use crate::manifest::commands;
use crate::manifest::commands::{Commands, HostCommandView};
use crate::text;
use vstd::prelude::*;

verus! {

/// The name of an allowlisted command, plus any arguments the guest appended.
#[derive(Debug, PartialEq)]
pub struct Request {
    pub arguments: Vec<String>,
    pub command: String,
}

/// A `Request`, its texts as sequences of characters.
#[verifier::ext_equal]
pub struct RequestView {
    pub arguments: Seq<Seq<char>>,
    pub command: Seq<char>,
}

impl View for Request {
    type V = RequestView;

    open spec fn view(&self) -> RequestView {
        RequestView { arguments: text::views(self.arguments@), command: self.command@ }
    }
}

// ---------------------------------------------------------------------------
// The wire format
// ---------------------------------------------------------------------------

/// The fields of a request: the command, then its arguments.
pub open spec fn fields(request: RequestView) -> Seq<Seq<char>> {
    seq![request.command] + request.arguments
}

/// Fields, each with a newline after it.
pub open spec fn terminated(values: Seq<Seq<char>>) -> Seq<char>
    decreases values.len(),
{
    if values.len() == 0 {
        Seq::empty()
    } else {
        (terminated(values.drop_last()) + values.last()).push('\n')
    }
}

/// The first field that holds a newline, if one does.
pub open spec fn first_broken(values: Seq<Seq<char>>) -> Option<Seq<char>>
    decreases values.len(),
{
    if values.len() == 0 {
        None
    } else {
        match first_broken(values.drop_last()) {
            Some(value) => Some(value),
            None => if values.last().contains('\n') {
                Some(values.last())
            } else {
                None
            },
        }
    }
}

/// A request as it is written: one field per line, unless one holds a newline.
pub open spec fn rendered(request: RequestView) -> Result<Seq<char>, RefusalView> {
    match first_broken(fields(request)) {
        Some(field) => Err(RefusalView::NewlineInArgument(field)),
        None => Ok(terminated(fields(request))),
    }
}

/// The request that a text holds: the command on its first line, an argument
/// on each other. A text whose first line is missing or empty names no command.
pub open spec fn parsed(s: Seq<char>) -> Result<RequestView, RefusalView> {
    let lines = text::lines(s);
    if lines.len() == 0 || lines[0].len() == 0 {
        Err(RefusalView::EmptyRequest)
    } else {
        Ok(RequestView { arguments: lines.skip(1), command: lines[0] })
    }
}

/// An outcome that may be a refusal, by its views.
pub open spec fn outcome<T: View>(r: Result<T, Refusal>) -> Result<T::V, RefusalView> {
    match r {
        Ok(value) => Ok(value@),
        Err(refusal) => Err(refusal@),
    }
}

/// Whether a text holds a newline.
fn holds_newline(s: &str) -> (r: bool)
    ensures
        r == s@.contains('\n'),
{
    let chars = text::chars_of(s);
    let mut i: usize = 0;
    while i < chars.len()
        invariant
            chars@ == s@,
            i <= chars@.len(),
            forall|j: int| 0 <= j < i ==> chars@[j] != '\n',
        decreases chars.len() - i,
    {
        if chars[i] == '\n' {
            assert(s@[i as int] == '\n');
            return true;
        }
        i = i + 1;
    }
    false
}

impl Request {
    pub fn new(command: &str, arguments: Vec<String>) -> (r: Self)
        ensures
            r@ == (RequestView { arguments: text::views(arguments@), command: command@ }),
    {
        Request { arguments, command: command.to_string() }
    }

    /// One field per line, command first: the writer is a shell script, and what
    /// `printf '%s\n'` emits has no escaping to get wrong. The cost is that an
    /// argument may not contain a newline.
    pub fn render(&self) -> (r: Result<String, Refusal>)
        ensures
            outcome(r) == rendered(self@),
    {
        let ghost all = fields(self@);
        reveal_with_fuel(first_broken, 2);
        reveal_with_fuel(terminated, 2);
        if holds_newline(self.command.as_str()) {
            proof {
                lemma_first_broken(all, 0);
            }
            return Err(Refusal::NewlineInArgument(self.command.clone()));
        }
        let mut out = self.command.clone();
        out.push('\n');
        let mut i: usize = 0;
        assert(all.take(1) =~= seq![self.command@]);
        assert(all.take(1).drop_last() =~= seq![]);
        assert(terminated(all.take(1)) =~= self.command@.push('\n'));
        while i < self.arguments.len()
            invariant
                i <= self.arguments@.len(),
                all == fields(self@),
                all.len() == self.arguments@.len() + 1,
                first_broken(all.take(i + 1)) is None,
                out@ == terminated(all.take(i + 1)),
                forall|j: int| 0 <= j < i + 1 ==> !(#[trigger] all[j]).contains('\n'),
            decreases self.arguments.len() - i,
        {
            let argument = &self.arguments[i];
            assert(all[i + 1] == argument@);
            assert(all.take(i + 2).drop_last() =~= all.take(i + 1));
            assert(all.take(i + 2).last() == argument@);
            if holds_newline(argument.as_str()) {
                proof {
                    lemma_first_broken(all, i + 1);
                }
                return Err(Refusal::NewlineInArgument(argument.clone()));
            }
            out.append(argument.as_str());
            out.push('\n');
            i = i + 1;
        }
        assert(all.take(i + 1) =~= all);
        Ok(out)
    }

    pub fn parse(s: &str) -> (r: Result<Self, Refusal>)
        ensures
            outcome(r) == parsed(s@),
    {
        let mut lines = text::lines_of(s);
        let ghost all = text::views(lines@);
        assert(all.len() == lines@.len());
        if lines.len() == 0 {
            return Err(Refusal::EmptyRequest);
        }
        assert(all[0] == lines@[0]@);
        let ghost before = lines@;
        let command = lines.remove(0);
        if command.as_str().unicode_len() == 0 {
            return Err(Refusal::EmptyRequest);
        }
        assert(text::views(lines@) =~= all.skip(1)) by {
            assert forall|j: int| 0 <= j < lines@.len() implies text::views(lines@)[j] == all.skip(
                1,
            )[j] by {
                assert(lines@[j] == before[j + 1]);
                assert(all[j + 1] == before[j + 1]@);
            }
        }
        Ok(Request { arguments: lines, command })
    }
}

proof fn lemma_first_broken(values: Seq<Seq<char>>, i: int)
    requires
        0 <= i < values.len(),
        values[i].contains('\n'),
        forall|j: int| 0 <= j < i ==> !(#[trigger] values[j]).contains('\n'),
    ensures
        first_broken(values) == Some(values[i]),
    decreases values.len(),
{
    let rest = values.drop_last();
    if i < rest.len() {
        lemma_first_broken(rest, i);
    } else {
        lemma_none_broken(rest);
    }
}

proof fn lemma_none_broken(values: Seq<Seq<char>>)
    requires
        forall|j: int| 0 <= j < values.len() ==> !(#[trigger] values[j]).contains('\n'),
    ensures
        first_broken(values) is None,
    decreases values.len(),
{
    if values.len() > 0 {
        let rest = values.drop_last();
        assert forall|j: int| 0 <= j < rest.len() implies !(#[trigger] rest[j]).contains('\n') by {
            assert(rest[j] == values[j]);
        }
        lemma_none_broken(rest);
        assert(values.last() == values[values.len() - 1]);
    }
}

proof fn lemma_split_more(s: Seq<char>, more: Seq<char>)
    requires
        !more.contains('\n'),
    ensures
        text::split(s + more, '\n') == text::split(s, '\n').drop_last().push(
            text::split(s, '\n').last() + more,
        ),
    decreases more.len(),
{
    let base = text::split(s, '\n');
    text::lemma_split_len(s, '\n');
    if more.len() == 0 {
        assert(s + more =~= s);
        assert(base.last() + more =~= base.last());
        assert(base =~= base.drop_last().push(base.last()));
    } else {
        let shorter = more.drop_last();
        assert forall|j: int| 0 <= j < shorter.len() implies shorter[j] != '\n' by {
            assert(shorter[j] == more[j]);
        }
        lemma_split_more(s, shorter);
        assert((s + more).drop_last() =~= s + shorter);
        assert((s + more).last() == more[more.len() - 1]);
        assert((base.last() + shorter).push(more.last()) =~= base.last() + more);
        assert(text::split(s + more, '\n') =~= base.drop_last().push(base.last() + more));
    }
}

proof fn lemma_split_terminated(values: Seq<Seq<char>>)
    requires
        forall|j: int| 0 <= j < values.len() ==> !(#[trigger] values[j]).contains('\n'),
    ensures
        text::split(terminated(values), '\n') == values.push(Seq::empty()),
    decreases values.len(),
{
    if values.len() == 0 {
        assert(text::split(terminated(values), '\n') =~= values.push(Seq::empty()));
    } else {
        let rest = values.drop_last();
        assert forall|j: int| 0 <= j < rest.len() implies !(#[trigger] rest[j]).contains('\n') by {
            assert(rest[j] == values[j]);
        }
        lemma_split_terminated(rest);
        assert(values.last() == values[values.len() - 1]);
        lemma_split_more(terminated(rest), values.last());
        let line = terminated(rest) + values.last();
        assert(line.push('\n').drop_last() =~= line);
        assert(Seq::<char>::empty() + values.last() =~= values.last());
        assert(rest.push(Seq::empty()).drop_last() =~= rest);
        assert(rest.push(values.last()) =~= values);
        assert(text::split(terminated(values), '\n') =~= values.push(Seq::empty()));
    }
}

/// A request reads back as it was written, wherever it names a command and no
/// field of it holds a newline or ends in a carriage return.
pub proof fn law_requests_round_trip(request: RequestView)
    requires
        request.command.len() > 0,
        forall|i: int|
            0 <= i < fields(request).len() ==> !(#[trigger] fields(request)[i]).contains('\n'),
        forall|i: int|
            0 <= i < fields(request).len() && (#[trigger] fields(request)[i]).len() > 0
                ==> fields(request)[i].last() != '\r',
    ensures
        rendered(request) is Ok,
        parsed(rendered(request)->Ok_0) == Ok::<RequestView, RefusalView>(request),
{
    let all = fields(request);
    lemma_none_broken(all);
    lemma_split_terminated(all);
    let shown = terminated(all);
    let parts = text::split(shown, '\n');
    assert(parts.drop_last() =~= all);
    assert(text::lines(shown) =~= all);
    assert(all.skip(1) =~= request.arguments);
}

// ---------------------------------------------------------------------------
// The allowlist
// ---------------------------------------------------------------------------

/// Whether a text is a flag of one letter: two bytes, of which the first is a
/// hyphen, but not `--`.
pub open spec fn is_short_flag(denied: Seq<char>) -> bool {
    text::byte_len(denied) == 2 && seq!['-'].is_prefix_of(denied) && denied != "--"@
}

/// Whether an argument is a spelling of a denied one: the same, or with a value
/// after `=`, or for a flag of one letter with a value joined to it.
pub open spec fn spells(denied: Seq<char>, argument: Seq<char>) -> bool {
    ||| argument == denied
    ||| (denied + "="@).is_prefix_of(argument)
    ||| is_short_flag(denied) && denied.is_prefix_of(argument)
}

/// Whether an argument is a spelling of something on a deny list.
pub open spec fn is_denied_by(deny: Seq<Seq<char>>, argument: Seq<char>) -> bool {
    exists|i: int| 0 <= i < deny.len() && spells(#[trigger] deny[i], argument)
}

/// The first argument that a deny list refuses, if it refuses one.
pub open spec fn first_denied(deny: Seq<Seq<char>>, arguments: Seq<Seq<char>>) -> Option<Seq<char>>
    decreases arguments.len(),
{
    if arguments.len() == 0 {
        None
    } else {
        match first_denied(deny, arguments.drop_last()) {
            Some(argument) => Some(argument),
            None => if is_denied_by(deny, arguments.last()) {
                Some(arguments.last())
            } else {
                None
            },
        }
    }
}

/// The argv to run for a request, or why it is refused.
pub open spec fn resolution(
    commands: Seq<(Seq<char>, HostCommandView)>,
    request: RequestView,
) -> Result<Seq<Seq<char>>, RefusalView> {
    match commands::lookup(commands, request.command) {
        None => Err(RefusalView::UnknownCommand(request.command)),
        Some(command) => if command.argv.len() == 0 {
            Err(RefusalView::EmptyCommand(request.command))
        } else if request.arguments.len() > 0 && !command.arguments {
            Err(RefusalView::ArgumentsNotAllowed(request.command))
        } else {
            match first_denied(command.deny, request.arguments) {
                Some(argument) => Err(RefusalView::DeniedArgument(argument)),
                None => Ok(command.argv + request.arguments),
            }
        },
    }
}

/// What resolving a request gave, by its views.
pub open spec fn resolved(r: Result<Vec<String>, Refusal>) -> Result<Seq<Seq<char>>, RefusalView> {
    match r {
        Ok(argv) => Ok(text::views(argv@)),
        Err(refusal) => Err(refusal@),
    }
}

/// The argv to run, or why the request is refused. Pure, so the allowlist
/// decision stands apart from any filesystem or container.
pub fn resolve(commands: &Commands, request: &Request) -> (r: Result<Vec<String>, Refusal>)
    ensures
        resolved(r) == resolution(commands@, request@),
{
    let command = match commands.get(request.command.as_str()) {
        Some(command) => command,
        None => {
            return Err(Refusal::UnknownCommand(request.command.clone()));
        },
    };
    assert(command@.argv.len() == command.argv@.len());
    assert(request@.arguments.len() == request.arguments@.len());
    if command.argv.len() == 0 {
        return Err(Refusal::EmptyCommand(request.command.clone()));
    }
    if request.arguments.len() > 0 && !command.arguments {
        return Err(Refusal::ArgumentsNotAllowed(request.command.clone()));
    }
    let ghost given = request@.arguments;
    let mut argv = command.argv.clone();
    assert(argv@ =~= command.argv@);
    let mut i: usize = 0;
    assert(given.take(0) =~= seq![]);
    assert(command@.argv + given.take(0) =~= command@.argv);
    while i < request.arguments.len()
        invariant
            i <= request.arguments@.len(),
            given == request@.arguments,
            commands::lookup(commands@, request@.command) == Some(command@),
            command@.argv.len() > 0,
            command@.arguments || given.len() == 0,
            first_denied(command@.deny, given.take(i as int)) is None,
            text::views(argv@) == command@.argv + given.take(i as int),
        decreases request.arguments.len() - i,
    {
        let argument = &request.arguments[i];
        assert(given.take(i + 1).drop_last() =~= given.take(i as int));
        assert(given.take(i + 1).last() == argument@);
        if is_denied(&command.deny, argument.as_str()) {
            proof {
                lemma_first_denied(command@.deny, given, i as int);
            }
            return Err(Refusal::DeniedArgument(argument.clone()));
        }
        let copy = argument.clone();
        proof {
            text::lemma_views_push(argv@, copy);
            assert(command@.argv + given.take(i + 1) =~= (command@.argv + given.take(
                i as int,
            )).push(argument@));
        }
        argv.push(copy);
        i = i + 1;
    }
    assert(given.take(i as int) =~= given);
    Ok(argv)
}

proof fn lemma_first_denied(deny: Seq<Seq<char>>, arguments: Seq<Seq<char>>, i: int)
    requires
        0 <= i < arguments.len(),
        first_denied(deny, arguments.take(i)) is None,
        is_denied_by(deny, arguments[i]),
    ensures
        first_denied(deny, arguments) == Some(arguments[i]),
    decreases arguments.len(),
{
    let rest = arguments.drop_last();
    if i < rest.len() {
        assert(rest.take(i) =~= arguments.take(i));
        lemma_first_denied(deny, rest, i);
    } else {
        assert(rest =~= arguments.take(i));
    }
}

/// This does not stop the guest running code on the host: it can edit the repo,
/// and a command that builds the repo runs whatever is there. It stops a guest
/// argument from swapping in configuration the user never reviewed. Matches
/// every spelling that reaches the same place: `--config` and `--config=x`, and
/// for a single-letter flag the joined `-Zx` too.
fn is_denied(deny: &Vec<String>, argument: &str) -> (r: bool)
    ensures
        r == is_denied_by(text::views(deny@), argument@),
{
    let ghost all = text::views(deny@);
    let mut i: usize = 0;
    while i < deny.len()
        invariant
            i <= deny@.len(),
            all == text::views(deny@),
            forall|j: int| 0 <= j < i ==> !spells(#[trigger] all[j], argument@),
        decreases deny.len() - i,
    {
        let denied = deny[i].as_str();
        assert(all[i as int] == denied@);
        let mut valued = deny[i].clone();
        valued.append("=");
        proof {
            reveal_strlit("-");
            assert("-"@ =~= seq!['-']);
        }
        let short = denied.as_bytes().len() == 2 && text::starts_with(denied, "-") && !text::same(
            denied,
            "--",
        );
        if text::same(argument, denied) || text::starts_with(argument, valued.as_str()) || (short
            && text::starts_with(argument, denied)) {
            assert(spells(all[i as int], argument@));
            return true;
        }
        i = i + 1;
    }
    false
}

// ---------------------------------------------------------------------------
// Laws
// ---------------------------------------------------------------------------

/// What runs is always a declared command: its own argv first, and after it
/// exactly the arguments the guest appended, which a command that was not
/// widened takes none of and of which none is denied.
pub proof fn law_only_declared_commands_run(
    commands: Seq<(Seq<char>, HostCommandView)>,
    request: RequestView,
)
    requires
        resolution(commands, request) is Ok,
    ensures
        ({
            let argv = resolution(commands, request)->Ok_0;
            let command = commands::lookup(commands, request.command);
            &&& command is Some
            &&& command->0.argv.len() > 0
            &&& argv == command->0.argv + request.arguments
            &&& !command->0.arguments ==> argv == command->0.argv
            &&& forall|i: int|
                0 <= i < request.arguments.len() ==> !is_denied_by(
                    command->0.deny,
                    #[trigger] request.arguments[i],
                )
        }),
{
    let command = commands::lookup(commands, request.command)->0;
    if !command.arguments {
        assert(command.argv + request.arguments =~= command.argv);
    }
    lemma_none_denied(command.deny, request.arguments);
}

proof fn lemma_none_denied(deny: Seq<Seq<char>>, arguments: Seq<Seq<char>>)
    requires
        first_denied(deny, arguments) is None,
    ensures
        forall|i: int|
            0 <= i < arguments.len() ==> !is_denied_by(deny, #[trigger] arguments[i]),
    decreases arguments.len(),
{
    if arguments.len() > 0 {
        let rest = arguments.drop_last();
        lemma_none_denied(deny, rest);
        assert forall|i: int| 0 <= i < arguments.len() implies !is_denied_by(
            deny,
            #[trigger] arguments[i],
        ) by {
            if i < rest.len() {
                assert(arguments[i] == rest[i]);
            }
        }
    }
}

/// A flag on the deny list is refused in every spelling of it: alone, with a value
/// behind `=`, and, for a single letter, with the value joined to it.
pub proof fn law_denied_flags_are_refused(
    commands: Seq<(Seq<char>, HostCommandView)>,
    request: RequestView,
    command: HostCommandView,
    i: int,
    j: int,
    value: Seq<char>,
)
    requires
        commands::lookup(commands, request.command) == Some(command),
        command.argv.len() > 0,
        command.arguments,
        0 <= i < command.deny.len(),
        0 <= j < request.arguments.len(),
        ({
            let flag = command.deny[i];
            let given = request.arguments[j];
            ||| given == flag
            ||| given == flag + "="@ + value
            ||| is_short_flag(flag) && given == flag + value
        }),
    ensures
        resolution(commands, request) matches Err(RefusalView::DeniedArgument(_)),
{
    let flag = command.deny[i];
    let given = request.arguments[j];
    if given == flag + "="@ + value {
        assert((flag + "="@).is_prefix_of(given)) by {
            assert(given.subrange(0, (flag + "="@).len() as int) =~= flag + "="@);
        }
    }
    if given == flag + value {
        assert(given.subrange(0, flag.len() as int) =~= flag);
    }
    assert(spells(flag, given));
    assert(is_denied_by(command.deny, given));
    if first_denied(command.deny, request.arguments) is None {
        lemma_none_denied(command.deny, request.arguments);
    }
}

/// A command that takes no arguments is refused any; a command that denies
/// nothing refuses none of those it takes.
pub proof fn law_arguments_are_refused_unless_allowed(
    commands: Seq<(Seq<char>, HostCommandView)>,
    request: RequestView,
    command: HostCommandView,
)
    requires
        commands::lookup(commands, request.command) == Some(command),
        command.argv.len() > 0,
    ensures
        request.arguments.len() > 0 && !command.arguments ==> resolution(commands, request) == Err::<
            Seq<Seq<char>>,
            RefusalView,
        >(RefusalView::ArgumentsNotAllowed(request.command)),
        command.arguments && command.deny.len() == 0 ==> resolution(commands, request) is Ok,
{
    if command.deny.len() == 0 {
        lemma_nothing_denied(command.deny, request.arguments);
    }
}

proof fn lemma_nothing_denied(deny: Seq<Seq<char>>, arguments: Seq<Seq<char>>)
    requires
        deny.len() == 0,
    ensures
        first_denied(deny, arguments) is None,
    decreases arguments.len(),
{
    if arguments.len() > 0 {
        lemma_nothing_denied(deny, arguments.drop_last());
    }
}

/// A text that begins with a hyphen is two bytes exactly where it is the hyphen and
/// one ASCII character.
proof fn lemma_two_bytes(s: Seq<char>)
    requires
        s.len() > 0,
        s[0] == '-',
    ensures
        text::byte_len(s) == 2 <==> s.len() == 2 && (s[1] as u32) < 128,
{
    reveal_with_fuel(vstd::utf8::encode_utf8, 3);
    let rest = s.drop_first();
    assert(('-' as u32) < 128);
    assert(text::utf8(s).len() == 1 + text::utf8(rest).len());
    if rest.len() > 0 {
        assert(rest[0] == s[1]);
        let more = rest.drop_first();
        assert(text::utf8(rest).len() == vstd::utf8::encode_scalar(s[1] as u32).len()
            + text::utf8(more).len());
        if more.len() > 0 {
            assert(text::utf8(more).len() >= 1);
        }
    }
}

/// Which arguments a flag spells, on their characters.
proof fn lemma_spells(flag: Seq<char>, argument: Seq<char>)
    ensures
        spells(flag, argument) <==> (argument == flag || (argument.len() > flag.len()
            && argument.take(flag.len() as int) == flag && argument[flag.len() as int] == '=') || (
        flag.len() == 2 && flag[0] == '-' && flag[1] != '-' && (flag[1] as u32) < 128
            && argument.len() >= 2 && argument[0] == '-' && argument[1] == flag[1])),
{
    reveal_strlit("=");
    reveal_strlit("--");
    let valued = flag + "="@;
    let n = flag.len() as int;
    if valued.is_prefix_of(argument) {
        assert(valued =~= argument.subrange(0, n + 1));
        assert(argument.take(n) =~= flag);
        assert(argument[n] == valued[n]);
    }
    if argument.len() > n && argument.take(n) == flag && argument[n] == '=' {
        assert(valued =~= argument.subrange(0, n + 1));
    }
    if is_short_flag(flag) {
        assert(seq!['-'] =~= flag.subrange(0, 1));
        assert(flag[0] == flag.subrange(0, 1)[0]);
        lemma_two_bytes(flag);
        if flag[1] == '-' {
            assert(flag =~= "--"@);
        }
        if flag.is_prefix_of(argument) {
            assert(flag =~= argument.subrange(0, 2));
            assert(argument[0] == flag[0] && argument[1] == flag[1]);
        }
    }
    if flag.len() == 2 && flag[0] == '-' && flag[1] != '-' && (flag[1] as u32) < 128
        && argument.len() >= 2 && argument[0] == '-' && argument[1] == flag[1] {
        lemma_two_bytes(flag);
        assert(seq!['-'] =~= flag.subrange(0, 1));
        assert("--"@[1] == '-');
        assert(flag =~= argument.subrange(0, 2));
    }
}

proof fn lemma_first_denied_is_first(deny: Seq<Seq<char>>, arguments: Seq<Seq<char>>)
    ensures
        match first_denied(deny, arguments) {
            Some(argument) => exists|j: int|
                0 <= j < arguments.len() && #[trigger] arguments[j] == argument && is_denied_by(
                    deny,
                    argument,
                ) && forall|k: int| 0 <= k < j ==> !is_denied_by(deny, #[trigger] arguments[k]),
            None => forall|k: int|
                0 <= k < arguments.len() ==> !is_denied_by(deny, #[trigger] arguments[k]),
        },
    decreases arguments.len(),
{
    if arguments.len() > 0 {
        let rest = arguments.drop_last();
        lemma_first_denied_is_first(deny, rest);
        match first_denied(deny, rest) {
            Some(argument) => {
                let j = choose|j: int|
                    0 <= j < rest.len() && #[trigger] rest[j] == argument && is_denied_by(
                        deny,
                        argument,
                    ) && forall|k: int| 0 <= k < j ==> !is_denied_by(deny, #[trigger] rest[k]);
                assert(arguments[j] == argument);
                assert forall|k: int| 0 <= k < j implies !is_denied_by(
                    deny,
                    #[trigger] arguments[k],
                ) by {
                    assert(rest[k] == arguments[k]);
                }
            },
            None => {
                assert forall|k: int| 0 <= k < rest.len() implies !is_denied_by(
                    deny,
                    #[trigger] arguments[k],
                ) by {
                    assert(rest[k] == arguments[k]);
                }
                assert(arguments[arguments.len() - 1] == arguments.last());
            },
        }
    }
}

/// An argument is refused only for a reason on the deny list: it is a flag there, or
/// that flag with a value behind `=`, or, for a hyphen and one letter, it begins with
/// just these. No other flag is refused on their account, and of several the first
/// is named.
pub proof fn law_an_argument_is_refused_only_if_denied(
    commands: Seq<(Seq<char>, HostCommandView)>,
    request: RequestView,
    command: HostCommandView,
    argument: Seq<char>,
)
    requires
        commands::lookup(commands, request.command) == Some(command),
        resolution(commands, request) == Err::<Seq<Seq<char>>, RefusalView>(
            RefusalView::DeniedArgument(argument),
        ),
    ensures
        request.arguments.contains(argument),
        command.arguments,
        exists|i: int|
            0 <= i < command.deny.len() && ({
                let flag = #[trigger] command.deny[i];
                argument == flag || (argument.len() > flag.len() && argument.take(flag.len() as int)
                    == flag && argument[flag.len() as int] == '=') || (flag.len() == 2 && flag[0]
                    == '-' && flag[1] != '-' && (flag[1] as u32) < 128 && argument.len() >= 2
                    && argument[0] == '-' && argument[1] == flag[1])
            }),
{
    lemma_first_denied_is_first(command.deny, request.arguments);
    let i = choose|i: int|
        0 <= i < command.deny.len() && spells(#[trigger] command.deny[i], argument);
    lemma_spells(command.deny[i], argument);
}

/// A widened command takes a request exactly where none of its arguments is a
/// denied flag, that flag with a value behind `=`, or a denied hyphen and letter with
/// a value joined to it; it then runs its own argv and those arguments after it.
pub proof fn law_a_widened_command_refuses_exactly_what_it_denies(
    commands: Seq<(Seq<char>, HostCommandView)>,
    request: RequestView,
    command: HostCommandView,
)
    requires
        commands::lookup(commands, request.command) == Some(command),
        command.argv.len() > 0,
        command.arguments,
    ensures
        resolution(commands, request) is Ok <==> forall|i: int, j: int|
            0 <= i < command.deny.len() && 0 <= j < request.arguments.len() ==> !({
                let flag = #[trigger] command.deny[i];
                let argument = #[trigger] request.arguments[j];
                argument == flag || (argument.len() > flag.len() && argument.take(flag.len() as int)
                    == flag && argument[flag.len() as int] == '=') || (flag.len() == 2 && flag[0]
                    == '-' && flag[1] != '-' && (flag[1] as u32) < 128 && argument.len() >= 2
                    && argument[0] == '-' && argument[1] == flag[1])
            }),
        resolution(commands, request) matches Ok(argv) ==> argv == command.argv
            + request.arguments,
{
    let deny = command.deny;
    let given = request.arguments;
    lemma_first_denied_is_first(deny, given);
    assert forall|i: int, j: int| 0 <= i < deny.len() && 0 <= j < given.len() implies (spells(
        #[trigger] deny[i],
        #[trigger] given[j],
    ) <==> ({
        let flag = deny[i];
        let argument = given[j];
        argument == flag || (argument.len() > flag.len() && argument.take(flag.len() as int)
            == flag && argument[flag.len() as int] == '=') || (flag.len() == 2 && flag[0] == '-'
            && flag[1] != '-' && (flag[1] as u32) < 128 && argument.len() >= 2 && argument[0]
            == '-' && argument[1] == flag[1])
    })) by {
        lemma_spells(deny[i], given[j]);
    }
    if resolution(commands, request) is Ok {
        assert forall|i: int, j: int| 0 <= i < deny.len() && 0 <= j < given.len() implies !spells(
            #[trigger] deny[i],
            #[trigger] given[j],
        ) by {
            assert(!is_denied_by(deny, given[j]));
        }
    } else {
        let bad = first_denied(deny, given)->0;
        let j = choose|j: int|
            0 <= j < given.len() && #[trigger] given[j] == bad && is_denied_by(deny, bad)
                && forall|k: int| 0 <= k < j ==> !is_denied_by(deny, #[trigger] given[k]);
        let i = choose|i: int| 0 <= i < deny.len() && spells(#[trigger] deny[i], bad);
        assert(spells(deny[i], given[j]));
    }
}

/// A request names an entry of the allowlist or is refused by its name; an entry
/// without a program runs nothing.
pub proof fn law_a_request_needs_a_declared_program(
    commands: Seq<(Seq<char>, HostCommandView)>,
    request: RequestView,
)
    ensures
        (forall|i: int| 0 <= i < commands.len() ==> (#[trigger] commands[i]).0 != request.command)
            <==> resolution(commands, request) == Err::<Seq<Seq<char>>, RefusalView>(
            RefusalView::UnknownCommand(request.command),
        ),
        commands::is_ordered(commands) ==> forall|i: int|
            0 <= i < commands.len() && (#[trigger] commands[i]).0 == request.command
                && commands[i].1.argv.len() == 0 ==> resolution(commands, request) == Err::<
                Seq<Seq<char>>,
                RefusalView,
            >(RefusalView::EmptyCommand(request.command)),
{
    if commands::is_ordered(commands) {
        assert forall|i: int|
            0 <= i < commands.len() && (#[trigger] commands[i]).0 == request.command
                && commands[i].1.argv.len() == 0 implies resolution(commands, request) == Err::<
            Seq<Seq<char>>,
            RefusalView,
        >(RefusalView::EmptyCommand(request.command)) by {
            commands::lemma_lookup(commands, i);
        }
    }
}

/// A request is written exactly where no field of it holds a newline, and is refused
/// by the first field that does.
pub proof fn law_only_newlines_keep_a_request_from_being_written(request: RequestView)
    ensures
        rendered(request) is Ok <==> !request.command.contains('\n') && forall|i: int|
            0 <= i < request.arguments.len() ==> !(#[trigger] request.arguments[i]).contains('\n'),
{
    let all = fields(request);
    assert(all[0] == request.command);
    assert forall|i: int| 0 <= i < request.arguments.len() implies #[trigger] request.arguments[i]
        == all[i + 1] by {}
    lemma_broken(all);
    if rendered(request) is Ok {
        assert forall|i: int| 0 <= i < request.arguments.len() implies !(
        #[trigger] request.arguments[i]).contains('\n') by {
            assert(!all[i + 1].contains('\n'));
        }
    } else {
        let k = choose|k: int| 0 <= k < all.len() && (#[trigger] all[k]).contains('\n');
        if k > 0 {
            assert(all[k] == request.arguments[k - 1]);
        }
    }
}

proof fn lemma_broken(values: Seq<Seq<char>>)
    ensures
        match first_broken(values) {
            Some(value) => exists|k: int|
                0 <= k < values.len() && (#[trigger] values[k]).contains('\n') && values[k] == value,
            None => forall|k: int|
                0 <= k < values.len() ==> !(#[trigger] values[k]).contains('\n'),
        },
    decreases values.len(),
{
    if values.len() > 0 {
        let rest = values.drop_last();
        lemma_broken(rest);
        match first_broken(rest) {
            Some(value) => {
                let k = choose|k: int|
                    0 <= k < rest.len() && (#[trigger] rest[k]).contains('\n') && rest[k] == value;
                assert(values[k] == rest[k]);
            },
            None => {
                assert forall|k: int| 0 <= k < rest.len() implies !(
                #[trigger] values[k]).contains('\n') by {
                    assert(values[k] == rest[k]);
                }
                assert(values[values.len() - 1] == values.last());
            },
        }
    }
}

} // verus!

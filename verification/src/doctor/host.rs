//! The ways a session reaches out of the container: the commands it may run on
//! the host, the ports it may reach there, and the token it authenticates with.
use crate::assistant;
use crate::assistant::Assistant;
use crate::doctor;
use crate::doctor::{check, listed, Check, CheckView, Status};
use crate::error::CredentialError;
use crate::manifest::commands;
use crate::manifest::commands::{HostCommand, HostCommandView};
use crate::paths;
use crate::session::credentials::{CredentialSource, CREDENTIALS_FILE_NAME};
use crate::session::Session;
use crate::text;
use vstd::prelude::*;

verus! {

/// Loopback answers or refuses at once; this only keeps `doctor` from hanging
/// on a service that accepts nothing. In milliseconds.
pub const PROBE_TIMEOUT: u64 = 250;

// ---------------------------------------------------------------------------
// Commands
// ---------------------------------------------------------------------------

/// The line that lists a command.
pub open spec fn command_line(entry: (Seq<char>, HostCommandView)) -> Seq<char> {
    entry.0 + " = "@ + text::join(entry.1.argv, " "@) + (if entry.1.arguments {
        " (+ guest arguments)"@
    } else {
        Seq::empty()
    })
}

/// The lines that list commands.
pub open spec fn command_lines(entries: Seq<(Seq<char>, HostCommandView)>) -> Seq<Seq<char>> {
    entries.map_values(|entry: (Seq<char>, HostCommandView)| command_line(entry))
}

/// Whether the guest may append arguments to one of some commands.
pub open spec fn is_widened(entries: Seq<(Seq<char>, HostCommandView)>) -> bool {
    exists|i: int| 0 <= i < entries.len() && (#[trigger] entries[i]).1.arguments
}

/// What is said of the commands that the guest may run on the host.
pub open spec fn commands_check(session: &Session) -> CheckView {
    let host = session.manifest.host;
    if !host.serves_commands() {
        doctor::plain(
            "host commands"@,
            Status::Pass,
            "no [host.commands]: the guest has no path to the host"@,
        )
    } else {
        doctor::heading(
            "host commands"@,
            if is_widened(host.served_list()) {
                Status::Warn
            } else {
                Status::Pass
            },
            "these run on the host as you"@,
            command_lines(host.served_list()),
        )
    }
}

fn describe(name: &str, command: &HostCommand) -> (r: String)
    ensures
        r@ == command_line((name@, command@)),
{
    let mut line = name.to_string();
    line.append(" = ");
    line.append(text::joined(&command.argv, " ").as_str());
    if command.arguments {
        line.append(" (+ guest arguments)");
    } else {
        assert(line@ =~= command_line((name@, command@)));
    }
    line
}

/// Lists every allowlisted command, since each runs on the host as the user.
pub fn allowlist(session: &Session) -> (r: Check)
    ensures
        r@ == commands_check(session),
{
    if !session.manifest.host.has_commands() {
        return check(
            "host commands",
            Status::Pass,
            "no [host.commands]: the guest has no path to the host".to_string(),
        );
    }
    let served = session.manifest.host.served_commands();
    let ghost all = served@;
    let mut lines: Vec<String> = Vec::new();
    let mut widened = false;
    let mut i: usize = 0;
    while i < served.len()
        invariant
            i <= all.len(),
            all == served@,
            lines@.len() == i,
            forall|j: int| 0 <= j < i ==> (#[trigger] lines@[j])@ == command_line(all[j]),
            widened == is_widened(all.take(i as int)),
        decreases all.len() - i,
    {
        let command = served.command_at(i);
        let line = describe(served.name_at(i).as_str(), command);
        if command.arguments {
            assert(all.take(i + 1)[i as int].1.arguments);
            widened = true;
        } else {
            assert(is_widened(all.take(i + 1)) == is_widened(all.take(i as int))) by {
                let longer = all.take(i + 1);
                let shorter = all.take(i as int);
                if is_widened(longer) {
                    let k = choose|k: int| 0 <= k < longer.len() && (#[trigger] longer[k]).1.arguments;
                    assert(shorter[k].1.arguments);
                }
                if is_widened(shorter) {
                    let k = choose|k: int|
                        0 <= k < shorter.len() && (#[trigger] shorter[k]).1.arguments;
                    assert(longer[k].1.arguments);
                }
            }
        }
        lines.push(line);
        i = i + 1;
    }
    assert(all.take(i as int) =~= all);
    assert(text::views(lines@) =~= command_lines(all));
    listed(
        "host commands",
        if widened {
            Status::Warn
        } else {
            Status::Pass
        },
        "these run on the host as you".to_string(),
        lines,
    )
}

// ---------------------------------------------------------------------------
// Ports
// ---------------------------------------------------------------------------

/// The line that lists a port, given whether something answers behind it.
pub open spec fn port_line(port: u16, answering: bool) -> Seq<char> {
    "localhost:"@ + text::decimal(port as nat) + (if answering {
        Seq::empty()
    } else {
        " — nothing is listening on the host, so it would only refuse"@
    })
}

/// The lines that list ports.
pub open spec fn port_lines(ports: Seq<u16>, answering: Seq<bool>) -> Seq<Seq<char>> {
    Seq::new(ports.len(), |i: int| port_line(ports[i], answering[i]))
}

/// What is said of the declared ports.
pub open spec fn ports_check(
    session: &Session,
    running: Result<bool, String>,
    served: bool,
    answering: Seq<bool>,
) -> CheckView {
    let ports = session.manifest.host.ports@;
    if ports.len() == 0 {
        doctor::plain(
            "host ports"@,
            Status::Pass,
            "no [host] ports: nothing is forwarded"@,
        )
    } else if running == Ok::<bool, String>(true) && !served {
        doctor::plain(
            "host ports"@,
            Status::Warn,
            session.container()
                + " is running, but the relay holding its port sockets is gone; exit it and `compostbin run` again"@,
        )
    } else {
        doctor::heading(
            "host ports"@,
            if answering.contains(false) {
                Status::Warn
            } else {
                Status::Pass
            },
            "reachable from this session's container and nothing else"@,
            port_lines(ports, answering),
        )
    }
}

/// Declared ports, and whether anything listens behind each. A down service is
/// a warning, not an error (it may start later), but it is the likeliest reason
/// a guest's `localhost:<port>` refuses.
///
/// Each port is relayed into this container alone, so there is no wider reach
/// to report. A container that is up while nothing accepts on its sockets is one
/// whose relay has died: the record cannot show this, and rebinding cannot fix it.
pub fn ports(
    session: &Session,
    running: &Result<bool, String>,
    served: bool,
    answering: &Vec<bool>,
) -> (r: Check)
    requires
        answering@.len() == session.manifest.host.ports@.len(),
    ensures
        r@ == ports_check(session, *running, served, answering@),
{
    if !session.manifest.host.has_ports() {
        return check(
            "host ports",
            Status::Pass,
            "no [host] ports: nothing is forwarded".to_string(),
        );
    }
    let up = match running {
        Ok(up) => *up,
        Err(_) => false,
    };
    if up && !served {
        let mut detail = session.container_name();
        detail.append(
            " is running, but the relay holding its port sockets is gone; exit it and `compostbin run` again",
        );
        return check("host ports", Status::Warn, detail);
    }
    let declared = &session.manifest.host.ports;
    let mut lines: Vec<String> = Vec::new();
    let mut idle = false;
    let mut i: usize = 0;
    while i < declared.len()
        invariant
            i <= declared@.len(),
            answering@.len() == declared@.len(),
            lines@.len() == i,
            forall|j: int|
                0 <= j < i ==> (#[trigger] lines@[j])@ == port_line(declared@[j], answering@[j]),
            idle == answering@.take(i as int).contains(false),
        decreases declared.len() - i,
    {
        let ghost shorter = answering@.take(i as int);
        let ghost longer = answering@.take(i + 1);
        assert(longer =~= shorter.push(answering@[i as int]));
        let mut line = "localhost:".to_string();
        line.append(text::decimal_text(declared[i] as u128).as_str());
        if answering[i] {
            assert(line@ =~= port_line(declared@[i as int], true));
            assert(longer.contains(false) == shorter.contains(false)) by {
                if longer.contains(false) {
                    let k = longer.index_of(false);
                    assert(shorter[k] == false);
                }
                if shorter.contains(false) {
                    let k = shorter.index_of(false);
                    assert(longer[k] == false);
                }
            }
        } else {
            line.append(" — nothing is listening on the host, so it would only refuse");
            assert(longer[i as int] == false);
            idle = true;
        }
        lines.push(line);
        i = i + 1;
    }
    assert(answering@.take(i as int) =~= answering@);
    assert(text::views(lines@) =~= port_lines(declared@, answering@));
    listed(
        "host ports",
        if idle {
            Status::Warn
        } else {
            Status::Pass
        },
        "reachable from this session's container and nothing else".to_string(),
        lines,
    )
}

// ---------------------------------------------------------------------------
// Credentials
// ---------------------------------------------------------------------------

/// Whether the source is asked for a token: one in the Keychain only counts if
/// `run` will copy it in.
pub open spec fn asks_for_a_token(session: &Session, seeded: bool) -> bool {
    !seeded && session.manifest.claude.seed_from_keychain
}

/// What a source said last of a token, where it was asked for one.
pub open spec fn told(
    session: &Session,
    seeded: bool,
    answers: Seq<Result<Option<String>, CredentialError>>,
) -> Option<Result<Option<String>, CredentialError>> {
    if asks_for_a_token(session, seeded) {
        Some(answers.last())
    } else {
        None
    }
}

/// What is said of a token, once the source has answered.
pub open spec fn answer_check(
    name: Seq<char>,
    answer: Result<Option<String>, CredentialError>,
    api_key_present: bool,
) -> CheckView {
    match answer {
        Ok(Some(_)) => doctor::plain(
            "credentials"@,
            Status::Pass,
            assistant::keychain_service(name) + " in the Keychain"@,
        ),
        Ok(None) => if api_key_present {
            doctor::plain("credentials"@, Status::Pass, "ANTHROPIC_API_KEY is set"@)
        } else {
            doctor::plain(
                "credentials"@,
                Status::Fail,
                "no "@ + assistant::keychain_service(name)
                    + " entry and no ANTHROPIC_API_KEY; the session cannot authenticate"@,
            )
        },
        Err(error) => if api_key_present {
            doctor::plain("credentials"@, Status::Pass, "ANTHROPIC_API_KEY is set"@)
        } else {
            doctor::plain("credentials"@, Status::Fail, error.sentence())
        },
    }
}

/// What is said of the ways a session could authenticate.
pub open spec fn token_check(
    session: &Session,
    seeded: bool,
    token: Option<Result<Option<String>, CredentialError>>,
    api_key_present: bool,
) -> CheckView {
    if seeded {
        doctor::plain(
            "credentials"@,
            Status::Pass,
            paths::joined(session.home(), ".credentials.json"@),
        )
    } else if !session.manifest.claude.seed_from_keychain {
        if api_key_present {
            doctor::plain("credentials"@, Status::Pass, "ANTHROPIC_API_KEY is set"@)
        } else {
            doctor::plain(
                "credentials"@,
                Status::Fail,
                "seed_from_keychain is off and no ANTHROPIC_API_KEY; the session cannot authenticate"@,
            )
        }
    } else {
        answer_check(session.assistant@, token->0, api_key_present)
    }
}

/// What is said of a token, once the source has answered.
pub fn answered(
    assistant: &Assistant,
    answer: &Result<Option<String>, CredentialError>,
    api_key_present: bool,
) -> (r: Check)
    ensures
        r@ == answer_check(assistant@, *answer, api_key_present),
{
    match answer {
        Ok(Some(_)) => {
            let mut found = assistant.keychain_service();
            found.append(" in the Keychain");
            check("credentials", Status::Pass, found)
        },
        Ok(None) => if api_key_present {
            check("credentials", Status::Pass, "ANTHROPIC_API_KEY is set".to_string())
        } else {
            let mut missing = "no ".to_string();
            missing.append(assistant.keychain_service().as_str());
            missing.append(" entry and no ANTHROPIC_API_KEY; the session cannot authenticate");
            check("credentials", Status::Fail, missing)
        },
        Err(error) => if api_key_present {
            check("credentials", Status::Pass, "ANTHROPIC_API_KEY is set".to_string())
        } else {
            check("credentials", Status::Fail, error.to_string())
        },
    }
}

/// Whether the session can authenticate: by a token already seeded into the assistant's
/// home, by one in the Keychain that `run` will copy in, or by an API key. The
/// source is asked once, where that token would be used, and else not at all.
pub fn credentials<S: CredentialSource>(
    session: &Session,
    source: &mut S,
    seeded: bool,
    api_key_present: bool,
) -> (r: Check)
    ensures
        r@ == token_check(
            session,
            seeded,
            told(session, seeded, final(source).answers()),
            api_key_present,
        ),
        if asks_for_a_token(session, seeded) {
            crate::session::credentials::is_asked_once(old(source).answers(), final(source).answers())
        } else {
            *final(source) == *old(source)
        },
{
    if seeded {
        let path = session.claude_home().join(CREDENTIALS_FILE_NAME);
        return check("credentials", Status::Pass, path.display());
    }
    if !session.manifest.claude.seed_from_keychain {
        if api_key_present {
            return check("credentials", Status::Pass, "ANTHROPIC_API_KEY is set".to_string());
        }
        return check(
            "credentials",
            Status::Fail,
            "seed_from_keychain is off and no ANTHROPIC_API_KEY; the session cannot authenticate".to_string(),
        );
    }
    let ghost before = source.answers();
    let answer = source.read();
    assert(source.answers().drop_last() =~= before);
    answered(&session.assistant, &answer, api_key_present)
}

/// The credentials check fails exactly where nothing authenticates the session: no
/// token was seeded, there is no API key, and no token would be copied in from the
/// source. Otherwise it passes; it never warns.
pub proof fn law_credentials_fail_where_nothing_authenticates(
    session: &Session,
    seeded: bool,
    answers: Seq<Result<Option<String>, CredentialError>>,
    api_key_present: bool,
)
    ensures
        ({
            let status = token_check(
                session,
                seeded,
                told(session, seeded, answers),
                api_key_present,
            ).status;
            let copied = session.manifest.claude.seed_from_keychain && answers.last() matches Ok(
                Some(_),
            );
            status == (if !seeded && !api_key_present && !copied {
                Status::Fail
            } else {
                Status::Pass
            })
        }),
{
}

/// Every command the guest may ask for is listed by what it runs on the host, and
/// whether the guest may add to it; the check warns exactly where the guest may add
/// to one of them, and passes otherwise. `list` is everything that is served, in
/// order of its names.
pub proof fn law_every_served_command_is_listed(
    session: &Session,
    list: Seq<(Seq<char>, HostCommandView)>,
    name: Seq<char>,
)
    requires
        session.manifest.host.is_served_list(list),
    ensures
        ({
            let host = session.manifest.host;
            let check = commands_check(session);
            &&& host.serves_commands() && host.served(name) is Some ==> {
                let command = host.served(name)->0;
                check.items.contains(
                    name + " = "@ + text::join(command.argv, " "@) + (if command.arguments {
                        " (+ guest arguments)"@
                    } else {
                        Seq::empty()
                    }),
                )
            }
            &&& host.serves_commands() ==> check.items.len() == list.len()
            &&& check.status == Status::Warn <==> host.serves_commands() && exists|asked: Seq<char>|
                (#[trigger] host.served(asked)) is Some && host.served(asked)->0.arguments
            &&& check.status != Status::Fail
            &&& !host.serves_commands() ==> check.items.len() == 0
        }),
{
    let host = session.manifest.host;
    let all = host.served_list();
    assert(host.is_served_list(all));
    assert forall|asked: Seq<char>| #[trigger]
        commands::lookup(all, asked) == commands::lookup(list, asked) by {
        assert(commands::lookup(list, asked) == host.served(asked));
    }
    commands::lemma_determined(all, list);
    if host.served(name) is Some {
        assert(commands::lookup(all, name) == host.served(name));
        let k = commands::position(all, name);
        assert(all[k].0 == name);
        assert(command_lines(all)[k] == command_line(all[k]));
    }
    if is_widened(all) {
        let k = choose|k: int| 0 <= k < all.len() && (#[trigger] all[k]).1.arguments;
        commands::lemma_lookup(all, k);
        assert(commands::lookup(all, all[k].0) == host.served(all[k].0));
    }
    if exists|asked: Seq<char>|
        (#[trigger] host.served(asked)) is Some && host.served(asked)->0.arguments {
        let asked = choose|asked: Seq<char>|
            (#[trigger] host.served(asked)) is Some && host.served(asked)->0.arguments;
        assert(commands::lookup(all, asked) == host.served(asked));
        let k = commands::position(all, asked);
        assert(all[k].1.arguments);
    }
}

/// Every declared port is listed, and told apart by whether something answers behind
/// it; the check warns exactly where something does not, or where the container is
/// up and nothing holds its sockets.
pub proof fn law_every_declared_port_is_listed(
    session: &Session,
    running: Result<bool, String>,
    served: bool,
    answering: Seq<bool>,
    i: int,
)
    requires
        answering.len() == session.manifest.host.ports@.len(),
    ensures
        ({
            let ports = session.manifest.host.ports@;
            let check = ports_check(session, running, served, answering);
            let dead = running == Ok::<bool, String>(true) && !served;
            &&& check.status != Status::Fail
            &&& check.status == Status::Warn <==> ports.len() > 0 && (dead || exists|k: int|
                0 <= k < ports.len() && !#[trigger] answering[k])
            &&& !dead ==> check.items.len() == ports.len()
            &&& !dead && 0 <= i < ports.len() ==> {
                let shown = "localhost:"@ + text::decimal(ports[i] as nat);
                &&& shown.is_prefix_of(check.items[i])
                &&& check.items[i] == shown <==> answering[i]
            }
        }),
{
    let ports = session.manifest.host.ports@;
    let check = ports_check(session, running, served, answering);
    if answering.contains(false) {
        let k = choose|k: int| 0 <= k < answering.len() && answering[k] == false;
        assert(!answering[k]);
    }
    if exists|k: int| 0 <= k < ports.len() && !#[trigger] answering[k] {
        let k = choose|k: int| 0 <= k < ports.len() && !#[trigger] answering[k];
        assert(answering[k] == false);
    }
    if 0 <= i < ports.len() && !(running == Ok::<bool, String>(true) && !served) {
        let shown = "localhost:"@ + text::decimal(ports[i] as nat);
        let line = port_line(ports[i], answering[i]);
        assert(check.items[i] == line);
        assert(shown =~= line.subrange(0, shown.len() as int));
        if answering[i] {
            assert(line =~= shown);
        } else {
            reveal_strlit(" — nothing is listening on the host, so it would only refuse");
            assert(line.len() > shown.len());
        }
    }
}

} // verus!

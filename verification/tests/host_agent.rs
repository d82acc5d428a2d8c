use compostbin::host::agent::{
    advance, chunk, decide, exit_status, input_eof_path, input_path, refusal, serve_once, status,
    streams, tty_path, Action, Decision, Event, Next, Pump, Service, Stage,
};
use compostbin::host::request::Request;
use compostbin::host::spool::{Listed, Publication, Spool};
use compostbin::host::{
    CHUNK_SIZE, ERROR_STREAM, OUTPUT_STREAM, PARTIAL_SUFFIX, REJECTED_EXIT_CODE, REQUEST_SUFFIX,
    STATUS_SUFFIX,
};
use compostbin::manifest::commands::{Commands, HostCommand};
use compostbin::paths::PathBuf;
use std::collections::BTreeMap;

fn words(list: &[&str]) -> Vec<String> {
    list.iter().map(|word| word.to_string()).collect()
}

fn commands(list: &[(&str, &[&str], bool)]) -> Commands {
    let mut commands = Commands::new();
    for (name, argv, arguments) in list {
        commands.insert(
            name.to_string(),
            HostCommand { arguments: *arguments, argv: words(argv), deny: Vec::new(), tty: false },
        );
    }
    commands
}

fn terminal_command(name: &str, argv: &[&str]) -> Commands {
    let mut commands = Commands::new();
    commands.insert(
        name.to_string(),
        HostCommand { arguments: false, argv: words(argv), deny: Vec::new(), tty: true },
    );
    commands
}

fn allowlist() -> Commands {
    commands(&[
        ("test", &["cargo", "nextest", "run", "--workspace"], false),
        ("test-one", &["cargo", "nextest", "run"], true),
    ])
}

/// A spool in memory: what the files under it hold, by their paths.
struct Disk {
    files: BTreeMap<String, Vec<u8>>,
    spool: Spool,
}

impl Disk {
    fn new() -> Self {
        Disk { files: BTreeMap::new(), spool: Spool::new(PathBuf::from("/state/host")) }
    }

    fn write(&mut self, path: &PathBuf, contents: &[u8]) {
        self.files.insert(path.display(), contents.to_vec());
    }

    fn publish(&mut self, publication: Publication) {
        assert_eq!(
            publication.partial.display(),
            format!("{}{PARTIAL_SUFFIX}", publication.published.display())
        );
        self.write(&publication.published, &publication.contents);
    }

    fn submit(&mut self, id: &str, request: &Request) {
        let publication = self.spool.submit(id, request).expect("submit should succeed");
        assert!(!publication.partial.display().ends_with(REQUEST_SUFFIX));
        self.write(&publication.published, &publication.contents);
    }

    fn names(&self, directory: &PathBuf) -> Vec<String> {
        let prefix = format!("{}/", directory.display());
        self.files
            .keys()
            .filter_map(|path| path.strip_prefix(&prefix).map(|name| name.to_string()))
            .collect()
    }

    fn listed(&self) -> Vec<Listed> {
        let mut listed = Vec::new();
        for directory in self.spool.swept() {
            for name in self.names(&directory) {
                listed.push(Listed { directory: false, path: directory.join(&name) });
            }
        }
        listed
    }

    fn read(&self, path: &PathBuf) -> String {
        String::from_utf8(self.files.get(&path.display()).cloned().unwrap_or_default())
            .expect("text")
    }

    fn gather(&self, id: &str, stream: &str) -> String {
        let prefix = format!("{id}.{stream}.");
        self.names(&self.spool.responses())
            .iter()
            .filter(|name| name.starts_with(&prefix) && !name.ends_with(PARTIAL_SUFFIX))
            .map(|name| self.read(&self.spool.responses().join(name)))
            .collect()
    }
}

#[derive(Debug, PartialEq)]
struct Response {
    errors: String,
    output: String,
    status: i32,
}

/// What a command that was started writes, and how it ends.
struct Ran {
    argv: Vec<String>,
    errors: Vec<u8>,
    exit: i32,
    output: Vec<u8>,
}

fn ran(argv: &[&str], output: &str, errors: &str, exit: i32) -> Ran {
    Ran {
        argv: words(argv),
        errors: errors.as_bytes().to_vec(),
        exit,
        output: output.as_bytes().to_vec(),
    }
}

/// Serves one request to its end, with a command that behaves as it is told.
fn serve(disk: &mut Disk, commands: &Commands, command: Option<Ran>) -> bool {
    let names = disk.names(&disk.spool.requests());
    let Some((mut stage, mut action)) = serve_once(&disk.spool, &names) else {
        return false;
    };
    let id = match &stage {
        Stage::Claiming(id) => id.clone(),
        stage => panic!("{stage:?}"),
    };
    for _ in 0..16 {
        let event = match action {
            Action::Rename { from, to } => {
                let held = disk.files.remove(&from.display()).expect("a request");
                disk.write(&to, &held);
                Event::Renamed(true)
            }
            Action::Read(path) => {
                let marked = disk.files.contains_key(&tty_path(&disk.spool, &id).display());
                Event::Text(disk.read(&path), marked)
            }
            Action::Run { argv, tty } => match &command {
                None => Event::NotStarted("No such file or directory".to_string()),
                Some(command) => {
                    assert_eq!(argv, command.argv);
                    for stream in streams(tty) {
                        let mut data = Vec::new();
                        if stream == OUTPUT_STREAM {
                            data.extend_from_slice(&command.output);
                            if tty {
                                data.extend_from_slice(&command.errors);
                            }
                        } else {
                            data.extend_from_slice(&command.errors);
                        }
                        for (index, part) in data.chunks(CHUNK_SIZE).enumerate() {
                            let published =
                                chunk(&disk.spool, &id, &stream, index + 1, part.to_vec());
                            disk.publish(published);
                        }
                    }
                    Event::Exited(command.exit)
                }
            },
            Action::Publish(publication) => {
                disk.publish(publication);
                Event::Published
            }
            Action::Remove(path) => {
                disk.files.remove(&path.display()).expect("a claim");
                Event::Removed
            }
            Action::Finish => {
                assert_eq!(stage, Stage::Done);
                return true;
            }
        };
        (stage, action) = advance(stage, event, &disk.spool, commands);
    }
    panic!("the request never ends");
}

fn serve_one(disk: &mut Disk, commands: &Commands, id: &str, command: Option<Ran>) -> Response {
    assert!(serve(disk, commands, command), "there should have been a request to serve");
    let status = disk.read(&disk.spool.responses().join(&format!("{id}{STATUS_SUFFIX}")));
    Response {
        errors: disk.gather(id, ERROR_STREAM),
        output: disk.gather(id, OUTPUT_STREAM),
        status: status.trim().parse().expect("status should be a number"),
    }
}

#[test]
fn reports_nothing_to_do_on_an_empty_spool() {
    let mut disk = Disk::new();

    assert!(!serve(&mut disk, &allowlist(), None));
}

#[test]
fn runs_an_allowlisted_command_and_reports_its_output_and_status() {
    let mut disk = Disk::new();
    let allowlist = commands(&[("greet", &["echo", "hello"], false)]);
    disk.submit("0001", &Request::new("greet", Vec::new()));

    assert_eq!(
        serve_one(&mut disk, &allowlist, "0001", Some(ran(&["echo", "hello"], "hello\n", "", 0))),
        Response { errors: String::new(), output: "hello\n".to_string(), status: 0 }
    );
}

#[test]
fn reports_the_exit_code_of_a_failing_command() {
    let mut disk = Disk::new();
    let argv: &[&str] = &["sh", "-c", "exit 3"];
    disk.submit("0001", &Request::new("fail", Vec::new()));

    assert_eq!(
        serve_one(&mut disk, &commands(&[("fail", argv, false)]), "0001", Some(ran(argv, "", "", 3)))
            .status,
        3
    );
}

#[test]
fn reports_a_refusal_as_output_and_a_status() {
    let mut disk = Disk::new();
    disk.submit("0001", &Request::new("rm", Vec::new()));

    let response = serve_one(&mut disk, &allowlist(), "0001", None);

    assert_eq!(response.status, REJECTED_EXIT_CODE);
    assert!(
        response.errors.contains("rm"),
        "{} should name the refused command",
        response.errors
    );
}

#[test]
fn reports_a_command_that_cannot_be_started() {
    let mut disk = Disk::new();
    disk.submit("0001", &Request::new("gone", Vec::new()));

    assert_eq!(
        serve_one(&mut disk, &commands(&[("gone", &["missing-tool"], false)]), "0001", None),
        Response {
            errors: "compostbin: missing-tool: No such file or directory\n".to_string(),
            output: String::new(),
            status: 126,
        }
    );
}

#[test]
fn serves_the_oldest_request_first() {
    let mut disk = Disk::new();
    let allowlist = commands(&[
        ("first", &["echo", "first"], false),
        ("second", &["echo", "second"], false),
    ]);
    disk.submit("0002", &Request::new("second", Vec::new()));
    disk.submit("0001", &Request::new("first", Vec::new()));

    assert_eq!(
        serve_one(&mut disk, &allowlist, "0001", Some(ran(&["echo", "first"], "first\n", "", 0)))
            .output,
        "first\n"
    );
    assert_eq!(
        serve_one(&mut disk, &allowlist, "0002", Some(ran(&["echo", "second"], "second\n", "", 0)))
            .output,
        "second\n"
    );
}

#[test]
fn ignores_a_request_that_is_still_being_written() {
    let mut disk = Disk::new();
    let path = disk.spool.requests().join(&format!("0001{PARTIAL_SUFFIX}"));
    disk.write(&path, b"greet\n");

    assert!(!serve(&mut disk, &allowlist(), None));
}

#[test]
fn keeps_stdout_and_stderr_apart() {
    let mut disk = Disk::new();
    let argv: &[&str] = &["sh", "-c", "echo out; echo err >&2"];
    disk.submit("0001", &Request::new("both", Vec::new()));

    assert_eq!(
        serve_one(
            &mut disk,
            &commands(&[("both", argv, false)]),
            "0001",
            Some(ran(argv, "out\n", "err\n", 0))
        ),
        Response { errors: "err\n".to_string(), output: "out\n".to_string(), status: 0 }
    );
}

#[test]
fn gives_a_terminal_to_a_command_that_asked_for_one() {
    let commands = terminal_command("interactive", &["sh", "-c", "test -t 1 && test -t 0"]);

    assert_eq!(
        decide(&commands, "interactive\n"),
        Decision::Run { argv: words(&["sh", "-c", "test -t 1 && test -t 0"]), tty: true }
    );
}

#[test]
fn gives_pipes_to_a_command_that_did_not() {
    let commands = commands(&[("plain", &["sh", "-c", "test -t 1"], false)]);

    assert_eq!(
        decide(&commands, "plain\n"),
        Decision::Run { argv: words(&["sh", "-c", "test -t 1"]), tty: false }
    );
}

/// A caller that captures output never gets colour codes and progress redraws.
#[test]
fn gives_pipes_to_a_guest_without_a_terminal() {
    let mut disk = Disk::new();
    let argv = ["sh", "-c", "printf out; printf err >&2"];
    disk.submit("0001", &Request::new("both", Vec::new()));

    assert_eq!(
        serve_one(
            &mut disk,
            &terminal_command("both", &argv),
            "0001",
            Some(ran(&argv, "out", "err", 0))
        ),
        Response { errors: "err".to_string(), output: "out".to_string(), status: 0 }
    );
}

#[test]
fn the_terminal_mark_stands_beside_the_input() {
    assert_eq!(
        tty_path(&Spool::new(PathBuf::from("/spool")), "0001"),
        PathBuf::from("/spool/responses/0001.tty")
    );
}

#[test]
fn merges_the_streams_a_terminal_cannot_keep_apart() {
    let mut disk = Disk::new();
    let argv = ["sh", "-c", "printf out; printf err >&2"];
    let mark = tty_path(&disk.spool, "0001");
    disk.write(&mark, b"");
    disk.submit("0001", &Request::new("both", Vec::new()));

    let response = serve_one(
        &mut disk,
        &terminal_command("both", &argv),
        "0001",
        Some(ran(&argv, "out", "err", 0)),
    );

    assert_eq!(response.status, 0);
    assert_eq!(
        response.errors,
        String::new(),
        "a pty has no second descriptor to publish: {response:?}"
    );
    assert!(
        response.output.contains("out") && response.output.contains("err"),
        "both streams should arrive on the terminal: {response:?}"
    );
    assert_eq!(streams(true), ["out"]);
    assert_eq!(streams(false), ["out", "err"]);
}

#[test]
fn finishes_a_command_that_ignores_unterminated_input() {
    let mut pump = Pump::new();

    assert!(pump.advance(7, true, false), "more input may come");
    assert!(pump.advance(0, false, false), "nothing new is not the end");
    assert!(!pump.advance(0, true, true), "the command has exited");
    assert_eq!(pump.offset, 7);
}

#[test]
fn a_command_that_closed_its_input_ends_the_pump() {
    let mut pump = Pump::new();

    assert!(!pump.advance(6, false, false));
    assert_eq!(pump, Pump { offset: 6 });
}

#[test]
fn reassembles_output_spanning_many_chunks() {
    let mut disk = Disk::new();
    let lines = 50_000;
    let mut output = String::new();
    for line in 1..=lines {
        output.push_str(&format!("{line}\n"));
    }
    let argv: &[&str] = &["seq", "1", "50000"];
    disk.submit("0001", &Request::new("many", Vec::new()));

    let response = serve_one(
        &mut disk,
        &commands(&[("many", argv, false)]),
        "0001",
        Some(ran(argv, &output, "", 0)),
    );

    let collected: Vec<&str> = response.output.lines().collect();
    assert_eq!(collected.len(), lines, "every line should survive reassembly");
    assert_eq!(collected.first(), Some(&"1"), "and they should be in order");
    assert_eq!(collected.last(), Some(&"50000"));
    let chunks = disk
        .names(&disk.spool.responses())
        .iter()
        .filter(|name| name.contains(&format!(".{OUTPUT_STREAM}.")))
        .count();
    assert!(
        chunks > 1,
        "output this size should have taken more than one chunk, got {chunks}"
    );
}

#[test]
fn leaves_no_partial_chunk_behind() {
    let mut disk = Disk::new();
    disk.submit("0001", &Request::new("greet", Vec::new()));
    serve(
        &mut disk,
        &commands(&[("greet", &["echo", "hello"], false)]),
        Some(ran(&["echo", "hello"], "hello\n", "", 0)),
    );

    let names = disk.names(&disk.spool.responses());
    assert_eq!(names.iter().filter(|name| name.ends_with(PARTIAL_SUFFIX)).count(), 0);
}

#[test]
fn leaves_no_claimed_request_behind() {
    let mut disk = Disk::new();
    disk.submit("0001", &Request::new("greet", Vec::new()));
    serve(
        &mut disk,
        &commands(&[("greet", &["echo", "hello"], false)]),
        Some(ran(&["echo", "hello"], "hello\n", "", 0)),
    );

    assert_eq!(
        disk.names(&disk.spool.running()).len(),
        0,
        "the claimed request should have been removed"
    );
}

#[test]
fn a_lost_claim_is_left_to_the_agent_that_won_it() {
    let spool = Spool::new(PathBuf::from("/state/host"));

    assert_eq!(
        advance(Stage::Claiming("0001".to_string()), Event::Renamed(false), &spool, &allowlist()),
        (Stage::Done, Action::Finish)
    );
}

#[test]
fn an_empty_request_is_refused() {
    assert_eq!(
        decide(&allowlist(), "\n"),
        Decision::Refuse("the request names no command".to_string())
    );
}

#[test]
fn names_the_files_of_a_response() {
    let spool = Spool::new(PathBuf::from("/state/host"));

    let written = chunk(&spool, "0001", "out", 12, b"text".to_vec());
    assert_eq!(written.published, PathBuf::from("/state/host/responses/0001.out.000012"));
    assert_eq!(written.partial, PathBuf::from("/state/host/responses/0001.out.000012.partial"));
    assert_eq!(written.contents, b"text");

    let told = refusal(&spool, "0001", "no");
    assert_eq!(told.published, PathBuf::from("/state/host/responses/0001.err.000001"));
    assert_eq!(told.contents, b"compostbin: no\n");

    let ended = status(&spool, "0001", -2);
    assert_eq!(ended.published, PathBuf::from("/state/host/responses/0001.status"));
    assert_eq!(ended.contents, b"-2\n");

    assert_eq!(input_path(&spool, "0001"), PathBuf::from("/state/host/responses/0001.in"));
    assert_eq!(
        input_eof_path(&spool, "0001"),
        PathBuf::from("/state/host/responses/0001.in.eof")
    );
}

#[test]
fn names_chunks_in_the_order_they_were_written() {
    let spool = Spool::new(PathBuf::from("/state/host"));
    let name = |sequence: usize| {
        chunk(&spool, "0001", "out", sequence, Vec::new()).published.display()
    };

    assert!(name(9) < name(10));
    assert!(name(99) < name(100));
    assert!(name(999_998) < name(999_999));
}

#[test]
fn reports_a_signal_above_the_base() {
    assert_eq!(exit_status(Some(3), 0), 3);
    assert_eq!(exit_status(None, 9), 137);
}

#[test]
fn bounds_the_requests_in_flight() {
    let mut service = Service::new(2);

    assert_eq!(service.serve(false), Next::Claim);
    service.dispatch();
    assert_eq!(service.serve(false), Next::Claim);
    service.dispatch();
    assert_eq!(service.serve(false), Next::Wait);
    service.complete();
    assert_eq!(service.serve(false), Next::Claim);
    assert_eq!(service.serve(true), Next::Stop);
    assert_eq!(Service::new(0).serve(false), Next::Claim, "one at least");
}

#[test]
fn sweeps_what_a_killed_client_left_behind() {
    let mut disk = Disk::new();
    let claimed = disk.spool.running().join("0001");
    let output = disk.spool.responses().join(&format!("0001.{OUTPUT_STREAM}.000001"));
    let ended = disk.spool.responses().join(&format!("0001{STATUS_SUFFIX}"));
    disk.write(&claimed, b"greet\n");
    disk.write(&output, b"hello\n");
    disk.write(&ended, b"0\n");

    let swept = disk.spool.sweep(&disk.listed());
    assert_eq!(swept.len(), 3);
    for path in &swept {
        disk.files.remove(&path.display());
    }
    assert_eq!(disk.names(&disk.spool.responses()).len(), 0);
    assert_eq!(disk.names(&disk.spool.running()).len(), 0);
}

#[test]
fn sweeps_nothing_a_client_is_still_waiting_on() {
    let mut disk = Disk::new();
    disk.submit("0001", &Request::new("greet", Vec::new()));

    assert_eq!(disk.spool.sweep(&disk.listed()), Vec::<PathBuf>::new());
    assert!(disk
        .files
        .contains_key(&disk.spool.requests().join(&format!("0001{REQUEST_SUFFIX}")).display()));
}

#[test]
fn sweeping_a_spool_that_was_never_created_is_not_an_error() {
    assert_eq!(
        Spool::new(PathBuf::from("/absent")).sweep(&Vec::new()),
        Vec::<PathBuf>::new()
    );
}

#[test]
fn sweeps_files_and_no_directories() {
    let spool = Spool::new(PathBuf::from("/state/host"));
    let listed = vec![
        Listed { directory: true, path: PathBuf::from("/state/host/responses/nested") },
        Listed { directory: false, path: PathBuf::from("/state/host/responses/0001.status") },
    ];

    assert_eq!(spool.sweep(&listed), vec![PathBuf::from("/state/host/responses/0001.status")]);
    assert_eq!(
        spool.directories(),
        vec![
            PathBuf::from("/state/host/requests"),
            PathBuf::from("/state/host/running"),
            PathBuf::from("/state/host/responses"),
        ]
    );
}

#[test]
fn a_request_that_cannot_be_written_is_refused() {
    let spool = Spool::new(PathBuf::from("/state/host"));
    let broken = Request::new("test-one", words(&["one\ntwo"]));

    let error = spool.submit("0001", &broken).expect_err("should be refused");
    assert!(error.to_string().contains("newline"), "{error:?}");
}

use compostbin::apple_container::fake::RecordingEngine as ContainerTool;
use compostbin::assistant::Assistant;
use compostbin::engine::engine::Engine;
use compostbin::engine::fake::{Call, RecordingEngine};
use compostbin::engine::model::{EnvVar, ExecSpec, Mount, Resources, RunSpec};
use compostbin::error::{PathError, SessionError};
use compostbin::host::ports::Forward;
use compostbin::host::spool::Spool;
use compostbin::host::GUEST_SPOOL_TARGET;
use compostbin::manifest::commands::HostCommand;
use compostbin::manifest::memory::Memory;
use compostbin::manifest::{Manifest, PathEntry};
use compostbin::paths::{PathBuf, PathResolver};
use compostbin::session::briefing;
use compostbin::session::clean::{clear, clear_entry, Discarded, Manner, Removal};
use compostbin::session::credentials::{seed, FakeSource, Seed, SeedOutcome};
use compostbin::session::record::Record;
use compostbin::session::run::{Action, Event, Notice, Process, Stage};
use compostbin::session::{
    AddOutcome, Session, CLIPBOARD_DISPLAY, GUEST_PORTS_NAME, KEEPALIVE_COMMAND,
};
use compostbin::workspace::Origin;

/// The name of the assistant that sessions run, as the name of its variable has it.
fn name() -> String {
    "CLAUDE_CONFIG_DIR".split('_').next().expect("a word").to_lowercase()
}

/// A text with the assistant's name filled in.
fn with_name(text: &str) -> String {
    let name = name();
    let capitalized = format!("{}{}", name[..1].to_uppercase(), &name[1..]);

    text.replace("{name}", &name)
        .replace("{NAME}", &name.to_uppercase())
        .replace("{Name}", &capitalized)
}

fn words(list: &[&str]) -> Vec<String> {
    list.iter().map(|word| word.to_string()).collect()
}

fn manifest() -> Manifest {
    let mut manifest = Manifest::default();
    manifest.project.name = Some("cb".to_string());
    manifest.container.cpus = 4;
    manifest.container.env = words(&["ANTHROPIC_API_KEY"]);
    manifest.container.memory = Memory::gibibytes(8);
    manifest.workspace.roots = words(&["~/workspace"]);
    manifest.paths = vec![PathEntry {
        local: false,
        readonly: true,
        source: "~/.cargo/registry".to_string(),
        target: None,
    }];
    manifest
}

fn session() -> Session {
    Session::new(
        Assistant::default(),
        manifest(),
        PathResolver::new(
            "/Users/user/workspace/compostbin".into(),
            "/Users/user".into(),
        ),
        "/Users/user/workspace/compostbin".into(),
    )
}

fn declare_test(session: &mut Session) {
    session.manifest.host.commands.insert(
        "test".to_string(),
        HostCommand {
            arguments: false,
            argv: words(&["cargo", "nextest", "run"]),
            deny: Vec::new(),
            tty: false,
        },
    );
}

fn exec(session: &Session, arguments: &[&str]) -> Call {
    Call::Exec(session.exec_spec(&words(arguments)))
}

/// What a run left behind.
#[derive(Debug, Default)]
struct Ran {
    actions: Vec<String>,
    bound: Vec<Forward>,
    created: Vec<PathBuf>,
    emptied: Vec<PathBuf>,
    notices: Vec<Notice>,
    record: Option<(PathBuf, Record)>,
    shared: Vec<String>,
    swept: Vec<Spool>,
    written: Vec<(PathBuf, String)>,
}

/// Runs a session on a host where everything succeeds but what the engine says.
fn run_with(
    session: &Session,
    engine: &mut RecordingEngine,
    process: &Process,
) -> (Result<i32, SessionError>, Ran) {
    let mut ran = Ran::default();
    let mut turn = session.run();
    for _ in 0..64 {
        if let Some(notice) = turn.notice {
            ran.notices.push(notice);
        }
        let event = match turn.action {
            Action::Seed { home, enabled } => {
                let mut source = FakeSource::new(None);
                Event::Seeded(seed(&home, enabled, false, &mut source).map(|seed| match seed {
                    Seed::Done(outcome) => outcome,
                    Seed::Write { .. } => SeedOutcome::Seeded,
                }))
            }
            Action::Share { names, .. } => {
                ran.shared = names;
                Event::Shared(Ok(Vec::new()))
            }
            Action::IsRunning(name) => Event::Running(engine.is_running(&name)),
            Action::Exec(spec) => Event::Exited(engine.exec(&spec)),
            Action::Create(directories) => {
                ran.actions.push("create".to_string());
                ran.created.extend(directories);
                Event::Changed(Ok(()))
            }
            Action::Bind(forwards) => {
                ran.actions.push("bind".to_string());
                ran.bound.extend(forwards);
                Event::Changed(Ok(()))
            }
            Action::IsUnpacked(image) => Event::Unpacked(engine.is_unpacked(&image)),
            Action::Write(files) => {
                for file in files {
                    ran.written.push((file.path, file.contents));
                }
                Event::Changed(Ok(()))
            }
            Action::Sweep(spool) => {
                ran.swept.push(spool);
                Event::Changed(Ok(()))
            }
            Action::Run(spec) => {
                ran.actions.push("run".to_string());
                Event::Ran(engine.run(&spec))
            }
            Action::Record { path, record } => {
                ran.record = Some((path, record));
                Event::Recorded(Ok(()))
            }
            Action::Serve { .. } => {
                ran.actions.push("serve".to_string());
                Event::Serving
            }
            Action::Stop => {
                ran.actions.push("stop".to_string());
                Event::Stopped
            }
            Action::Empty(path) => {
                ran.emptied.push(path);
                Event::Changed(Ok(()))
            }
            Action::Finish(result) => return (result, ran),
            Action::Wait => panic!("the session waits at {:?}", turn.stage),
        };
        turn = session.advance(process, turn.stage, event);
    }
    panic!("the session never ends");
}

fn claude(session: &Session, arguments: &[&str]) -> Process {
    Process::claude(&session.assistant, &words(arguments))
}

fn run(session: &Session, engine: &mut RecordingEngine) -> Ran {
    let (result, ran) = run_with(session, engine, &claude(session, &[]));
    result.expect("run should succeed");
    ran
}

#[test]
fn mod_add_inside_a_root_changes_nothing() {
    let mut session = session();

    let outcome = session.add("/Users/user/workspace/other".into(), false, false);

    assert_eq!(outcome, AddOutcome::AlreadyMounted { root: "/Users/user/workspace".into() });
    assert_eq!(session.manifest.paths.len(), 1, "no new [[paths]] entry");
    assert_eq!(session.mounts().len(), 4, "no new mount");
}

#[test]
fn mod_add_outside_every_root_records_a_path() {
    let mut session = session();

    let outcome = session.add("/Users/user/vendor/libfoo".into(), true, false);

    assert_eq!(outcome, AddOutcome::NeedsRestart);
    assert_eq!(session.manifest.paths[1].source, "/Users/user/vendor/libfoo");
    assert_eq!(session.manifest.paths[1].readonly, true);
    assert_eq!(session.manifest.paths[1].target, None);
    assert!(
        session.mounts().contains(&Mount {
            readonly: true,
            source: "/Users/user/vendor/libfoo".into(),
            target: "/workspace/libfoo".into(),
        }),
        "the added path must become a mount"
    );
    assert_eq!(session.manifest.paths[1].local, false, "add records a shared path");
}

#[test]
fn a_local_path_mounts_and_says_where_it_came_from() {
    let mut session = session();

    session.add("/Users/user/vendor/libfoo".into(), false, true);

    assert!(session.manifest.paths[1].local);
    let workspace = session.workspace();
    let entry = workspace
        .entries()
        .iter()
        .find(|entry| entry.host == PathBuf::from("/Users/user/vendor/libfoo"))
        .expect("the local path should be mounted");
    assert_eq!(entry.origin, Origin::Local);
    assert_eq!(entry.guest, PathBuf::from("/workspace/libfoo"));
}

#[test]
fn run_attaches_to_an_already_running_container() {
    let session = session();
    let mut engine = RecordingEngine::with_running(&["compostbin-cb"]);

    run(&session, &mut engine);

    assert_eq!(
        engine.calls(),
        [Call::IsRunning("compostbin-cb".to_string()), exec(&session, &[name().as_str()])],
        "a running container must not be recreated"
    );
}

#[test]
fn run_creates_a_container_that_is_not_running() {
    let session = session();
    let mut engine = RecordingEngine::with_running(&["compostbin-other"]);

    run(&session, &mut engine);

    assert_eq!(
        engine.calls(),
        [
            Call::IsRunning("compostbin-cb".to_string()),
            Call::IsUnpacked(session.run_spec().image),
            Call::Run(session.run_spec()),
            exec(&session, &[name().as_str()]),
        ]
    );
}

#[test]
fn run_says_when_it_unpacks_the_image_first() {
    let session = session();
    let image = session.run_spec().image;
    let unpacking = |mut engine: RecordingEngine| {
        run(&session, &mut engine)
            .notices
            .into_iter()
            .filter_map(|notice| match notice {
                Notice::Unpacking(image) => Some(image),
                _ => None,
            })
            .collect::<Vec<String>>()
    };

    assert_eq!(unpacking(RecordingEngine::new()), [image.clone()]);
    assert_eq!(unpacking(RecordingEngine::with_unpacked(&[&image])), Vec::<String>::new());
}

#[test]
fn run_passes_its_arguments_through_to_claude() {
    let session = session();
    let mut engine = RecordingEngine::new();

    let (result, _) = run_with(&session, &mut engine, &claude(&session, &["--continue"]));
    result.expect("run should succeed");

    assert_eq!(engine.calls().last(), Some(&exec(&session, &[name().as_str(), "--continue"])));
}

fn setup_spec(session: &Session, line: &str) -> Call {
    exec(session, &["bash", "-euo", "pipefail", "-c", line])
}

#[test]
fn run_sets_up_a_new_container_before_starting_claude() {
    let mut session = session();
    session.manifest.container.setup = words(&["./bin/setup", "true"]);
    let mut engine = RecordingEngine::new();

    run(&session, &mut engine);

    assert_eq!(
        engine.calls()[3..],
        [
            setup_spec(&session, "./bin/setup"),
            setup_spec(&session, "true"),
            exec(&session, &[name().as_str()]),
        ]
    );
}

#[test]
fn joining_a_running_session_sets_nothing_up() {
    let mut session = session();
    session.manifest.container.setup = words(&["./bin/setup"]);
    let mut engine = RecordingEngine::with_running(&["compostbin-cb"]);

    run(&session, &mut engine);

    assert_eq!(engine.calls().last(), Some(&exec(&session, &[name().as_str()])));
    assert_eq!(engine.calls().len(), 2);
}

#[test]
fn failed_setup_does_not_start_claude() {
    let mut session = session();
    session.manifest.container.setup = words(&["false", "true"]);
    let mut engine = RecordingEngine::exiting_with(3);

    let (result, ran) = run_with(&session, &mut engine, &claude(&session, &[]));

    assert_eq!(result, Ok(3));
    assert_eq!(
        ran.notices
            .into_iter()
            .filter(|notice| matches!(notice, Notice::SetupFailed { .. }))
            .collect::<Vec<Notice>>(),
        [Notice::SetupFailed { line: "false".to_string(), code: 3 }]
    );
    assert_eq!(engine.calls().last(), Some(&setup_spec(&session, "false")));
}

#[test]
fn run_binds_the_port_sockets_before_creating_the_container() {
    let mut session = session();
    session.manifest.host.ports = vec![7001];

    let ran = run(&session, &mut RecordingEngine::new());

    assert_eq!(ran.bound, session.forwards());
    let at = |name: &str| ran.actions.iter().position(|action| action == name);
    assert!(at("bind") < at("run"), "{:?}", ran.actions);
}

#[test]
fn joining_a_running_session_binds_nothing() {
    let mut session = session();
    session.manifest.host.ports = vec![7001];

    let ran = run(&session, &mut RecordingEngine::with_running(&["compostbin-cb"]));

    assert!(ran.bound.is_empty());
    assert!(ran.created.is_empty());
}

#[test]
fn run_says_when_there_is_no_token_to_seed() {
    let session = session();
    let image = session.run_spec().image;

    let ran = run(&session, &mut RecordingEngine::with_unpacked(&[&image]));

    assert_eq!(ran.notices, [Notice::NotInKeychain]);
}

#[test]
fn creating_the_container_writes_the_briefing() {
    let session = session();

    let ran = run(&session, &mut RecordingEngine::new());

    assert_eq!(
        ran.written,
        [
            (
                session.managed_settings().join(briefing::MANAGED_SETTINGS_FILE),
                briefing::managed_settings(&session.assistant),
            ),
            (
                session.managed_settings().join(briefing::BRIEFING_FILE),
                briefing::briefing(&session.manifest),
            ),
        ]
    );
}

fn add_vendor(session: &mut Session) {
    session.manifest.paths.push(PathEntry {
        local: false,
        readonly: false,
        source: "/Users/user/vendor".to_string(),
        target: None,
    });
}

#[test]
fn records_the_mounts_the_container_was_created_with() {
    let mut session = session();

    let (path, recorded) = run(&session, &mut RecordingEngine::new())
        .record
        .expect("run must have written a record");
    assert_eq!(path, session.mount_record());
    assert_eq!(recorded, Record::of(&session.mounts()));

    // The container still has the mounts it was created with.
    add_vendor(&mut session);

    assert!(
        !recorded.drift(&session.mounts()).is_empty(),
        "a path added mid-session is not mounted until the container is recreated"
    );
}

#[test]
fn creating_a_container_sweeps_the_last_ones_leftovers() {
    let mut session = session();
    declare_test(&mut session);

    let joined = run(&session, &mut RecordingEngine::with_running(&["compostbin-cb"]));
    assert!(
        joined.swept.is_empty() && joined.emptied.is_empty(),
        "a running container's responses are not a joiner's to delete, on the way in or out"
    );

    let created = run(&session, &mut RecordingEngine::new());
    assert_eq!(
        created.swept,
        [Spool::new(session.host_spool())],
        "a replaced container's are"
    );
    assert_eq!(created.emptied, [session.host_spool()]);
}

#[test]
fn recreating_the_container_records_the_new_mounts() {
    let mut session = session();

    run(&session, &mut RecordingEngine::new());
    add_vendor(&mut session);
    // The first session has exited, taking its container with it.
    let (_, recorded) = run(&session, &mut RecordingEngine::new())
        .record
        .expect("run must have rewritten the record");

    assert!(
        recorded.drift(&session.mounts()).is_empty(),
        "the record must describe the container that is running now: {recorded:?}"
    );
}

#[test]
fn a_joiner_leaves_the_record_alone() {
    let session = session();

    let ran = run(&session, &mut RecordingEngine::with_running(&["compostbin-cb"]));

    assert_eq!(ran.record, None);
    assert!(ran.actions.is_empty(), "{:?}", ran.actions);
}

#[test]
fn the_agent_is_stopped_once_the_attach_returns() {
    let mut session = session();
    declare_test(&mut session);

    let ran = run(&session, &mut RecordingEngine::new());

    assert_eq!(ran.actions.last(), Some(&"stop".to_string()));
    assert!(ran.actions.contains(&"serve".to_string()));
}

#[test]
fn the_exit_code_is_passed_on() {
    let session = session();
    let mut engine = RecordingEngine::exiting_with(7);

    let (result, _) = run_with(&session, &mut engine, &claude(&session, &[]));

    assert_eq!(result, Ok(7));
}

#[test]
fn a_spool_that_cannot_be_emptied_is_said_and_no_failure() {
    let session = session();
    let process = claude(&session, &[]);
    let full = || PathError::new("/spool".into(), "busy".to_string(), false);

    let turn = session.advance(&process, Stage::Cleaning(0), Event::Changed(Err(full())));

    assert_eq!(turn.notice, Some(Notice::CleanupFailed(full())));
    assert_eq!(turn.action, Action::Finish(Ok(0)));
}

#[test]
fn a_socket_that_cannot_be_bound_ends_the_session() {
    let session = session();
    let process = claude(&session, &[]);
    let busy = || PathError::new("/ports/7001.sock".into(), "in use".to_string(), false);

    let turn = session.advance(&process, Stage::Binding, Event::Changed(Err(busy())));

    assert_eq!(turn.action, Action::Finish(Err(SessionError::Io(busy()))));
}

#[test]
fn an_event_of_another_stage_changes_nothing() {
    let session = session();

    let turn = session.advance(&claude(&session, &[]), Stage::Seeding, Event::Stopped);

    assert_eq!(turn.action, Action::Wait);
    assert_eq!(turn.stage, Stage::Seeding);
}

#[test]
fn a_command_runs_as_the_guest_user_it_names() {
    let session = session();
    let mut engine = RecordingEngine::with_running(&["compostbin-cb"]);
    let process = Process::command(&words(&["id"]), false, "root");

    run_with(&session, &mut engine, &process).0.expect("run should succeed");

    match engine.calls().last() {
        Some(Call::Exec(spec)) => {
            assert_eq!(spec.arguments, ["id"]);
            assert_eq!(spec.user, Some("root".to_string()));
            assert!(!spec.tty);
        }
        other => panic!("{other:?}"),
    }
}

#[test]
fn mod_builds_exec_spec() {
    assert_eq!(
        session().exec_spec(&words(&[name().as_str(), "--continue"])),
        ExecSpec {
            arguments: words(&[name().as_str(), "--continue"]),
            env: vec![
                EnvVar::Inherit("ANTHROPIC_API_KEY".to_string()),
                EnvVar::Assign {
                    name: "CLAUDE_CONFIG_DIR".to_string(),
                    value: with_name("/home/{name}/.{name}"),
                },
                EnvVar::Assign { name: "IS_SANDBOX".to_string(), value: "1".to_string() },
            ],
            interactive: true,
            name: "compostbin-cb".to_string(),
            tty: true,
            user: None,
            workdir: Some(PathBuf::from("/workspace/workspace/compostbin")),
        }
    );
}

#[test]
fn names_a_display_only_for_the_clipboard() {
    let mut session = session();
    let display = EnvVar::Assign {
        name: "WAYLAND_DISPLAY".to_string(),
        value: CLIPBOARD_DISPLAY.to_string(),
    };

    assert!(!session.exec_spec(&Vec::new()).env.contains(&display));

    session.manifest.host.clipboard = true;

    assert!(session.exec_spec(&Vec::new()).env.contains(&display));
    assert!(
        session.mounts().iter().any(|mount| mount.target == PathBuf::from(GUEST_SPOOL_TARGET)),
        "the clipboard is served through the spool"
    );
}

#[test]
fn mod_mounts_project_dir_when_outside_every_root() {
    let session = Session::new(
        Assistant::default(),
        Manifest::default(),
        PathResolver::new("/Users/user/code/loose".into(), "/Users/user".into()),
        "/Users/user/code/loose".into(),
    );

    assert_eq!(
        session.mounts(),
        [
            Mount {
                readonly: false,
                source: "/Users/user/code/loose".into(),
                target: "/workspace/loose".into(),
            },
            Mount {
                readonly: true,
                source: "/Users/user/.local/state/compostbin/sessions/compostbin-loose/managed"
                    .into(),
                target: with_name("/etc/{name}-code").as_str().into(),
            },
            Mount {
                readonly: false,
                source:
                    with_name("/Users/user/.local/state/compostbin/sessions/compostbin-loose/{name}-home").as_str()
                        .into(),
                target: with_name("/home/{name}/.{name}").as_str().into(),
            },
        ]
    );
    assert_eq!(session.workdir(), PathBuf::from("/workspace/loose"));
}

#[test]
fn mod_skips_project_mount_when_inside_a_root() {
    let sources: Vec<String> =
        session().mounts().iter().map(|mount| mount.source.display()).collect();

    assert_eq!(
        sources,
        [
            "/Users/user/workspace",
            "/Users/user/.cargo/registry",
            "/Users/user/.local/state/compostbin/sessions/compostbin-cb/managed",
            with_name("/Users/user/.local/state/compostbin/sessions/compostbin-cb/{name}-home").as_str(),
        ]
    );
}

#[test]
fn mounts_the_spool_only_when_commands_are_declared() {
    let spool = "/Users/user/.local/state/compostbin/sessions/compostbin-cb/host";

    assert!(
        !session().mounts().iter().any(|mount| mount.source == PathBuf::from(spool)),
        "an undeclared channel must not be mounted: {:?}",
        session().mounts()
    );

    let mut declared = session();
    declare_test(&mut declared);

    assert!(
        declared.mounts().contains(&Mount {
            readonly: false,
            source: spool.into(),
            target: GUEST_SPOOL_TARGET.into(),
        }),
        "a declared command needs the spool mounted: {:?}",
        declared.mounts()
    );
}

#[test]
fn prepares_the_spool_only_when_commands_are_declared() {
    let mut session = session();

    assert!(session.prepare_host_spool().is_empty(), "no allowlist, no spool");
    assert_eq!(session.spool(), None);

    declare_test(&mut session);

    assert_eq!(
        session.prepare_host_spool(),
        [
            session.host_spool().join("requests"),
            session.host_spool().join("running"),
            session.host_spool().join("responses"),
        ]
    );
    assert_eq!(session.spool(), Some(Spool::new(session.host_spool())));
}

#[test]
fn mod_resolves_claude_home_on_the_host() {
    assert_eq!(
        session().claude_home(),
        PathBuf::from(with_name("/Users/user/.local/state/compostbin/sessions/compostbin-cb/{name}-home").as_str())
    );
}

#[test]
fn the_manifest_may_put_the_home_elsewhere() {
    let mut session = session();
    session.manifest.claude.home = Some("~/elsewhere".to_string());

    assert_eq!(session.claude_home(), PathBuf::from("/Users/user/elsewhere"));
}

#[test]
fn mod_builds_run_spec() {
    let sessions = "/Users/user/.local/state/compostbin/sessions/compostbin-cb";

    assert_eq!(
        session().run_spec(),
        RunSpec {
            arguments: KEEPALIVE_COMMAND.map(str::to_string).to_vec(),
            env: vec![EnvVar::Inherit("ANTHROPIC_API_KEY".to_string())],
            image: "compostbin/base:latest".to_string(),
            mounts: vec![
                Mount {
                    readonly: false,
                    source: PathBuf::from("/Users/user/workspace"),
                    target: PathBuf::from("/workspace/workspace"),
                },
                Mount {
                    readonly: true,
                    source: PathBuf::from("/Users/user/.cargo/registry"),
                    target: PathBuf::from("/workspace/registry"),
                },
                Mount {
                    readonly: true,
                    source: PathBuf::from(format!("{sessions}/managed")),
                    target: PathBuf::from(with_name("/etc/{name}-code").as_str()),
                },
                Mount {
                    readonly: false,
                    source: PathBuf::from(format!("{sessions}/{}-home", name())),
                    target: PathBuf::from(with_name("/home/{name}/.{name}").as_str()),
                },
            ],
            name: "compostbin-cb".to_string(),
            resources: Resources { cpus: 4, memory_in_bytes: 8 << 30 },
            sockets: Vec::new(),
            workdir: Some(PathBuf::from("/workspace/workspace/compostbin")),
        }
    );
}

#[test]
fn keeps_host_paths_out_of_the_container() {
    let session = session();

    let leaking: Vec<String> = session
        .mounts()
        .iter()
        .map(|mount| mount.target.display())
        .chain([session.workdir().display()])
        .filter(|guest| guest.starts_with("/Users"))
        .collect();

    assert_eq!(
        leaking,
        Vec::<String>::new(),
        "a host path may appear only as the source half of a mount"
    );
}

#[test]
fn runs_the_base_image_unless_the_manifest_adds_to_it() {
    assert_eq!(session().image(), "compostbin/base:latest");

    let mut session = session();
    session.manifest.image.packages = words(&["jq"]);

    assert_eq!(session.image(), "compostbin/compostbin-cb:latest");
    assert_eq!(
        session.run_spec().image,
        "compostbin/compostbin-cb:latest",
        "the session must run the image it built"
    );
}

#[test]
fn runs_port_relay() {
    let mut session = session();
    session.manifest.host.ports = vec![7001, 7002];

    assert_eq!(
        session.run_spec().arguments,
        [GUEST_PORTS_NAME, "7001", "7002"],
        "the relay is the container's own process"
    );
}

#[test]
fn forwards_through_a_socket_in_the_session_directory() {
    let mut session = session();
    session.manifest.host.ports = vec![7001];

    assert_eq!(session.forwards(), [Forward::to_loopback(&session.port_sockets(), 7001)]);
    assert_eq!(
        session.forwards()[0].listen,
        session.state_dir().join("ports").join("7001.sock")
    );
}

#[test]
fn relays_a_socket_per_declared_port() {
    let mut session = session();
    session.manifest.host.ports = vec![7001, 7002];

    let sockets = session.sockets();

    for port in [7001, 7002] {
        let source = session.state_dir().join("ports").join(&format!("{port}.sock"));
        let socket = sockets
            .iter()
            .find(|socket| socket.source == source)
            .unwrap_or_else(|| panic!("port {port} should be relayed: {sockets:?}"));

        assert_eq!(
            socket.target,
            PathBuf::from(format!("/run/compostbin/ports/{port}.sock"))
        );
    }
}

#[test]
fn mounts_no_socket_for_a_declared_port() {
    let mut session = session();
    session.manifest.host.ports = vec![7001];

    assert!(
        !session.mounts().iter().any(|mount| mount.source.starts_with(&session.port_sockets())),
        "a declared port is relayed, never mounted"
    );
}

#[test]
fn relays_no_sockets_without_ports() {
    assert!(
        session().sockets().is_empty(),
        "a session declaring no ports relays nothing"
    );
}

fn discarded(path: PathBuf, manner: Manner) -> Discarded {
    Discarded { path, manner }
}

#[test]
fn cleans_transient_state_but_keeps_the_conversation() {
    let session = session();
    let wanted = session.cleanable(false);
    let present: Vec<bool> = wanted
        .iter()
        .map(|entry| {
            entry.path == session.host_spool() || entry.path == session.managed_settings()
        })
        .collect();

    assert_eq!(
        session.clean(false, &present),
        [
            discarded(session.host_spool(), Manner::Spool),
            discarded(session.managed_settings(), Manner::Clear),
        ]
    );
    assert!(
        wanted.iter().all(|entry| !session.claude_home().starts_with(&entry.path)),
        "the conversation `--continue` reattaches to must survive"
    );
}

#[test]
fn cleaning_keeps_the_inode_a_running_container_mounts() {
    let session = session();

    assert!(session.cleanable(false).iter().all(|entry| entry.manner != Manner::Remove));
    assert!(session.clean_after_exit(true).iter().all(|entry| entry.manner == Manner::Spool));
    assert_eq!(clear(true), Removal::Contents);
    assert_eq!(clear(false), Removal::File);
    assert_eq!(clear_entry(true), Removal::Tree);
    assert_eq!(clear_entry(false), Removal::File);
}

#[test]
fn exit_cleanup_keeps_managed_settings() {
    let session = session();

    assert_eq!(
        session.clean_after_exit(true),
        [discarded(session.host_spool(), Manner::Spool)]
    );
    assert!(session.clean_after_exit(false).is_empty());
}

#[test]
fn cleaning_everything_takes_the_session_directory() {
    let session = session();

    assert_eq!(
        session.clean(true, &vec![true]),
        [discarded(session.state_dir(), Manner::Remove)]
    );
}

#[test]
fn cleaning_state_that_is_already_gone_is_not_an_error() {
    assert_eq!(session().clean(true, &vec![false]), Vec::new());
}

#[test]
fn asks_the_engine_about_its_own_container() {
    let mut engine = RecordingEngine::with_running(&["compostbin-cb"]);

    assert_eq!(session().is_running(&mut engine), Ok(true));
    assert_eq!(engine.calls(), [Call::IsRunning("compostbin-cb".to_string())]);
}

#[test]
fn projects_keep_their_state_apart() {
    let mut other = session();
    other.manifest.project.name = Some("cb2".to_string());

    assert!(!other.state_dir().starts_with(&session().state_dir()));
    assert!(!session().state_dir().starts_with(&other.state_dir()));
    assert!(!other.claude_home().starts_with(&session().state_dir()));
}

#[test]
fn no_commands_no_channel() {
    let quiet = run(&session(), &mut RecordingEngine::new());

    assert!(quiet.swept.is_empty());
    assert!(!session()
        .mounts()
        .iter()
        .any(|mount| mount.target == PathBuf::from(GUEST_SPOOL_TARGET)));
}

// On the `container` tool.

#[test]
fn an_added_path_inside_a_root_is_no_new_volume() {
    let mut session = session();
    let before = session.detached_spec().mounts;

    session.add("/Users/user/workspace/other".into(), false, false);

    assert_eq!(session.detached_spec().mounts, before, "no new mount");
}

#[test]
fn an_added_path_outside_every_root_is_a_volume() {
    let mut session = session();

    session.add("/Users/user/vendor/libfoo".into(), true, false);

    assert!(
        session.detached_spec().mounts.contains(&Mount {
            readonly: true,
            source: "/Users/user/vendor/libfoo".into(),
            target: "/workspace/libfoo".into(),
        }),
        "the added path must become a mount"
    );
}

#[test]
fn start_attaches_to_an_already_running_container() {
    let mut engine = ContainerTool::with_containers(&[("compostbin-cb", true)]);

    session().start(&mut engine).expect("start should succeed");

    assert_eq!(
        engine.calls(),
        [vec!["ls", "--quiet"]],
        "a running container must not be recreated"
    );
}

#[test]
fn start_recreates_a_stopped_container() {
    let mut engine = ContainerTool::with_containers(&[("compostbin-cb", false)]);

    session().start(&mut engine).expect("start should succeed");

    let calls = engine.calls();
    assert_eq!(calls[0], ["ls", "--quiet"]);
    assert_eq!(calls[1], ["ls", "--all", "--quiet"]);
    assert_eq!(calls[2], ["delete", "compostbin-cb"]);
    assert_eq!(calls[3], session().detached_spec().to_argv());
    assert_eq!(calls.len(), 4);
}

#[test]
fn start_creates_a_container_that_does_not_exist() {
    let mut engine = ContainerTool::with_containers(&[("compostbin-other", true)]);

    session().start(&mut engine).expect("start should succeed");

    let calls = engine.calls();
    assert_eq!(calls[0], ["ls", "--quiet"]);
    assert_eq!(calls[1], ["ls", "--all", "--quiet"]);
    assert_eq!(calls[2], session().detached_spec().to_argv());
    assert_eq!(calls.len(), 3, "nothing to delete: {calls:?}");
}

#[test]
fn restarts_by_stopping_deleting_and_continuing() {
    let mut engine = ContainerTool::new();

    session().restart(&mut engine).expect("restart should succeed");

    let calls = engine.calls();
    assert_eq!(calls[0], ["stop", "compostbin-cb"]);
    assert_eq!(calls[1], ["delete", "compostbin-cb"]);
    assert_eq!(calls[2], session().detached_spec().to_argv());
    assert_eq!(
        calls[3],
        session().attached_spec(&words(&[name().as_str(), "--continue"])).to_argv()
    );
    assert_eq!(calls.len(), 4);
}

#[test]
fn a_restart_remounts_the_assistants_home() {
    let mut engine = ContainerTool::new();

    session().restart(&mut engine).expect("restart should succeed");

    let run = &engine.calls()[2];
    assert!(
        run.contains(&format!("{}:/home/{1}/.{1}", session().claude_home().display(), name())),
        "the recreated container must remount the assistant's home: {run:?}"
    );
}

#[test]
fn attaches_through_the_container_tool() {
    assert_eq!(
        session().attached_spec(&words(&[name().as_str(), "--continue"])).to_argv(),
        [
            "exec",
            "--env",
            "ANTHROPIC_API_KEY",
            "--env",
            with_name("CLAUDE_CONFIG_DIR=/home/{name}/.{name}").as_str(),
            "--env",
            "IS_SANDBOX=1",
            "--interactive",
            "--tty",
            "--workdir",
            "/workspace/workspace/compostbin",
            "compostbin-cb",
            name().as_str(),
            "--continue",
        ]
    );
}

#[test]
fn the_assistants_home_is_the_last_volume() {
    let mounts = session().detached_spec().mounts;

    assert_eq!(mounts.last().map(|mount| mount.source.clone()), Some(session().claude_home()));
}

#[test]
fn runs_through_the_container_tool() {
    let argv = session().detached_spec().to_argv();

    assert_eq!(
        argv[..10],
        [
            "run",
            "--cpus",
            "4",
            "--detach",
            "--env",
            "ANTHROPIC_API_KEY",
            "--memory",
            "8G",
            "--name",
            "compostbin-cb",
        ]
    );
    assert_eq!(
        argv[argv.len() - 5..],
        [
            "--workdir",
            "/workspace/workspace/compostbin",
            "compostbin/base:latest",
            "sleep",
            "infinity",
        ]
    );
}

#[test]
fn starts_the_builder_before_building_the_manifest_image() {
    let mut builder = compostbin::apple_container::fake::RecordingBuilder::new();

    assert_eq!(session().build(&mut builder), Ok(0));

    let calls = builder.calls();
    assert_eq!(calls[0], ["builder", "start", "--memory", "8G"]);
    assert_eq!(calls[1], session().build_spec().to_argv());
    assert_eq!(calls.len(), 2);
}

/// A path with a place of its own does not move the session there.
#[test]
fn a_session_starts_below_workspace_whatever_else_is_mounted() {
    let mut session = session();
    session.project_dir = PathBuf::from("/Users/user/loose");
    session.manifest.paths.push(PathEntry {
        local: false,
        readonly: false,
        source: "/Users/user/loose".to_string(),
        target: Some("/srv/elsewhere".to_string()),
    });

    assert_eq!(session.workdir(), PathBuf::from("/workspace/loose"));
}

#[test]
fn a_session_outside_workspace_starts_below_it() {
    let mut session = session();
    session.manifest.paths.clear();
    for project in ["/", "/srv/app", "loose", ""] {
        session.project_dir = PathBuf::from(project);
        assert!(
            session.workdir().starts_with(&PathBuf::from("/workspace")),
            "{project:?}: {:?}",
            session.workdir()
        );
    }
}

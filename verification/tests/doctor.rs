use compostbin::apple_container::fake::RecordingEngine as ContainerTool;
use compostbin::assistant::Assistant;
use compostbin::doctor::{
    self, cli, exit_code, mounts, Check, Found, Status,
};
use compostbin::engine::fake::RecordingEngine;
use compostbin::error::{CredentialError, ManifestError, PathError};
use compostbin::manifest::commands::HostCommand;
use compostbin::manifest::{Manifest, PathEntry};
use compostbin::paths::{PathBuf, PathResolver};
use compostbin::report::Diagnosis;
use compostbin::session::credentials::FakeSource;
use compostbin::session::record::Record;
use compostbin::session::Session;
use compostbin::workspace::{Escape, Escapes};

/// The name of the assistant that sessions run, as the name of its variable has it.
fn name() -> String {
    "CLAUDE_CONFIG_DIR".split('_').next().expect("a word").to_lowercase()
}

/// A text with the assistant's name filled in.
fn with_name(text: &str) -> String {
    let name = name();
    let capitalized = format!("{}{}", name[..1].to_uppercase(), &name[1..]);

    text.replace("{name}", &name)
        .replace("{NAME}", &name.to_uppercase())
        .replace("{Name}", &capitalized)
}

fn words(list: &[&str]) -> Vec<String> {
    list.iter().map(|word| word.to_string()).collect()
}

fn in_keychain() -> FakeSource {
    FakeSource::new(Some("token".to_string()))
}

/// A session whose single root and assistant home both exist.
fn session(root: &str) -> Session {
    let mut manifest = Manifest::default();
    manifest.claude.home = Some(with_name("/Users/user/{name}-home"));
    manifest.project.name = Some("cb".to_string());
    manifest.workspace.roots = words(&[root]);
    Session::new(
        Assistant::default(),
        manifest,
        PathResolver::new("/Users/user/project".into(), "/Users/user".into()),
        "/Users/user/project".into(),
    )
}

fn healthy() -> Session {
    session("/Users/user/workspace")
}

fn add_path(session: &mut Session, source: &str, readonly: bool) {
    session.manifest.paths.push(PathEntry {
        local: false,
        readonly,
        source: source.to_string(),
        target: None,
    });
}

fn check<'a>(checks: &'a [Check], name: &str) -> &'a Check {
    checks
        .iter()
        .find(|check| check.name == name)
        .unwrap_or_else(|| panic!("no {name:?} check in {checks:?}"))
}

/// The findings alone, for cases that only care a check named what it found.
fn findings(check: &Check) -> String {
    check.items.join("\n")
}

/// A host where all that the session declares is there, but for one path, and
/// where nothing was recorded or seeded.
fn found(session: &Session) -> Found {
    let missing = PathBuf::from("/Users/user/not-there");
    Found {
        answering: session.manifest.host.ports.iter().map(|_| true).collect(),
        escapes: Escapes::default(),
        present: mounts::declared(session).iter().map(|path| *path != missing).collect(),
        led_to: session.workspace().entries().iter().map(|entry| entry.host.clone()).collect(),
        record: Ok(None),
        seeded: false,
        served: true,
    }
}

/// A diagnosis of the `container` tool.
fn tool(
    session: &Session,
    engine: &mut ContainerTool,
    found: &Found,
    source: &mut FakeSource,
    api_key: bool,
) -> Vec<Check> {
    let answers = cli::ask(session, engine);
    cli::diagnose(session, &answers, found, source, api_key)
}

/// A diagnosis of the engine.
fn engine(
    session: &Session,
    engine: &mut RecordingEngine,
    found: &Found,
    source: &mut FakeSource,
    api_key: bool,
) -> Vec<Check> {
    let answers = doctor::ask(session, engine);
    doctor::diagnose(session, &answers, found, source, api_key)
}

fn declare_commands(session: &mut Session) {
    session.manifest.host.commands.insert(
        "test".to_string(),
        HostCommand {
            arguments: false,
            argv: words(&["cargo", "nextest", "run"]),
            deny: Vec::new(),
            tty: false,
        },
    );
    session.manifest.host.commands.insert(
        "test-one".to_string(),
        HostCommand {
            arguments: true,
            argv: words(&["cargo", "nextest", "run"]),
            deny: Vec::new(),
            tty: false,
        },
    );
}

#[test]
fn mod_reports_a_daemon_that_was_never_started() {
    let session = healthy();

    let checks =
        tool(&session, &mut ContainerTool::new(), &found(&session), &mut in_keychain(), false);

    assert_eq!(check(&checks, "daemon").status, Status::Fail);
    assert!(
        check(&checks, "daemon").detail.contains("container system start"),
        "detail should name the fix: {:?}",
        check(&checks, "daemon")
    );
    assert_eq!(
        check(&checks, "base image").status,
        Status::Fail,
        "an unreachable daemon cannot confirm the image"
    );
}

#[test]
fn doctor_reports_a_store_that_was_never_built() {
    let session = healthy();

    let checks =
        engine(&session, &mut RecordingEngine::new(), &found(&session), &mut in_keychain(), false);

    assert_eq!(check(&checks, "image store").status, Status::Fail);
    assert_eq!(check(&checks, "base image").status, Status::Fail);
    assert_eq!(exit_code(&checks), 1);
}

#[test]
fn mod_reports_a_missing_base_image() {
    let session = healthy();

    let checks = tool(
        &session,
        &mut ContainerTool::with_images(&["debian:stable-slim"]),
        &found(&session),
        &mut in_keychain(),
        false,
    );

    assert_eq!(check(&checks, "daemon").status, Status::Pass);
    assert_eq!(check(&checks, "base image").status, Status::Fail);
    assert!(
        check(&checks, "base image").detail.contains("compostbin build"),
        "detail should name the fix: {:?}",
        check(&checks, "base image")
    );
}

#[test]
fn doctor_reports_a_missing_base_image() {
    let session = healthy();

    let checks = engine(
        &session,
        &mut RecordingEngine::with_images(&["debian:stable-slim"]),
        &found(&session),
        &mut in_keychain(),
        false,
    );

    assert_eq!(check(&checks, "base image").status, Status::Fail);
    assert!(
        check(&checks, "base image").detail.contains("compostbin build"),
        "detail should name the fix: {:?}",
        check(&checks, "base image")
    );
}

#[test]
fn mod_passes_a_healthy_host() {
    let session = healthy();

    let checks = tool(
        &session,
        &mut ContainerTool::with_images(&["compostbin/base:latest"]),
        &found(&session),
        &mut in_keychain(),
        false,
    );

    assert_eq!(
        checks.iter().filter(|check| check.status != Status::Pass).collect::<Vec<_>>(),
        Vec::<&Check>::new()
    );
    assert_eq!(check(&checks, "container CLI").detail, cli::TESTED_CLI_VERSION);
    assert_eq!(exit_code(&checks), 0);
}

#[test]
fn doctor_passes_a_healthy_host() {
    let session = healthy();

    let checks = engine(
        &session,
        &mut RecordingEngine::with_images(&["compostbin/base:latest"]),
        &found(&session),
        &mut in_keychain(),
        false,
    );

    assert_eq!(
        checks.iter().filter(|check| check.status != Status::Pass).collect::<Vec<_>>(),
        Vec::<&Check>::new()
    );
}

#[test]
fn mod_names_a_mounted_path_that_does_not_exist() {
    let session = session("/Users/user/not-there");

    let checks = tool(
        &session,
        &mut ContainerTool::with_images(&["compostbin/base:latest"]),
        &found(&session),
        &mut in_keychain(),
        false,
    );

    let mounts = check(&checks, "mounted paths");
    assert_eq!(mounts.status, Status::Fail);
    assert!(
        findings(mounts).contains("/Users/user/not-there"),
        "detail should name the missing path: {mounts:?}"
    );
}

#[test]
fn doctor_names_a_mounted_path_that_does_not_exist() {
    let session = session("/Users/user/not-there");

    let checks = engine(
        &session,
        &mut RecordingEngine::with_images(&["compostbin/base:latest"]),
        &found(&session),
        &mut in_keychain(),
        false,
    );

    let mounts = check(&checks, "mounted paths");
    assert_eq!(mounts.status, Status::Fail);
    assert!(
        findings(mounts).contains("/Users/user/not-there"),
        "detail should name the missing path: {mounts:?}"
    );
}

#[test]
fn mod_warns_about_a_symlink_that_will_dangle_in_the_container() {
    let session = healthy();
    let mut found = found(&session);
    found.escapes.escapes.push(Escape {
        link: "/Users/user/workspace/project/vendor".into(),
        target: "/Users/user/elsewhere".into(),
    });

    let checks = tool(
        &session,
        &mut ContainerTool::with_images(&["compostbin/base:latest"]),
        &found,
        &mut in_keychain(),
        false,
    );

    let dangling = check(&checks, "dangling symlinks");
    assert_eq!(dangling.status, Status::Warn);
    assert!(
        findings(dangling).contains("vendor") && findings(dangling).contains("elsewhere"),
        "detail should name the link and where it points: {dangling:?}"
    );
}

#[test]
fn doctor_warns_about_a_symlink_that_will_dangle_in_the_container() {
    let session = healthy();
    let mut found = found(&session);
    found.escapes.escapes.push(Escape {
        link: "/Users/user/workspace/project/vendor".into(),
        target: "/Users/user/elsewhere".into(),
    });

    let checks = engine(
        &session,
        &mut RecordingEngine::with_images(&["compostbin/base:latest"]),
        &found,
        &mut in_keychain(),
        false,
    );

    let dangling = check(&checks, "dangling symlinks");
    assert_eq!(dangling.status, Status::Warn);
    assert!(
        findings(dangling).contains("vendor") && findings(dangling).contains("elsewhere"),
        "detail should name the link and where it points: {dangling:?}"
    );
}

#[test]
fn mod_warns_about_a_root_covering_the_whole_home_directory() {
    let session = session("~");

    let checks = tool(
        &session,
        &mut ContainerTool::with_images(&["compostbin/base:latest"]),
        &found(&session),
        &mut in_keychain(),
        false,
    );

    let breadth = check(&checks, "mount breadth");
    assert_eq!(breadth.status, Status::Warn);
    assert!(
        findings(breadth).contains("/Users/user"),
        "detail should name the broad root: {breadth:?}"
    );
}

#[test]
fn doctor_warns_about_a_root_covering_the_whole_home_directory() {
    let session = session("~");

    let checks = engine(
        &session,
        &mut RecordingEngine::with_images(&["compostbin/base:latest"]),
        &found(&session),
        &mut in_keychain(),
        false,
    );

    let breadth = check(&checks, "mount breadth");
    assert_eq!(breadth.status, Status::Warn);
    assert!(
        findings(breadth).contains("/Users/user"),
        "detail should name the broad root: {breadth:?}"
    );
}

#[test]
fn mod_accepts_an_api_key_when_the_keychain_is_empty() {
    let session = healthy();

    let checks = tool(
        &session,
        &mut ContainerTool::with_images(&["compostbin/base:latest"]),
        &found(&session),
        &mut FakeSource::new(None),
        true,
    );

    assert_eq!(check(&checks, "credentials").status, Status::Pass);
    assert_eq!(check(&checks, "credentials").detail, "ANTHROPIC_API_KEY is set");
}

#[test]
fn doctor_accepts_an_api_key_when_the_keychain_is_empty() {
    let session = healthy();

    let checks = engine(
        &session,
        &mut RecordingEngine::with_images(&["compostbin/base:latest"]),
        &found(&session),
        &mut FakeSource::new(None),
        true,
    );

    assert_eq!(check(&checks, "credentials").status, Status::Pass);
    assert_eq!(check(&checks, "credentials").detail, "ANTHROPIC_API_KEY is set");
}

#[test]
fn mod_fails_when_there_is_no_way_to_authenticate() {
    let session = healthy();

    let checks = tool(
        &session,
        &mut ContainerTool::with_images(&["compostbin/base:latest"]),
        &found(&session),
        &mut FakeSource::new(None),
        false,
    );

    assert_eq!(check(&checks, "credentials").status, Status::Fail);
}

#[test]
fn doctor_fails_when_there_is_no_way_to_authenticate() {
    let session = healthy();

    let checks = engine(
        &session,
        &mut RecordingEngine::with_images(&["compostbin/base:latest"]),
        &found(&session),
        &mut FakeSource::new(None),
        false,
    );

    assert_eq!(check(&checks, "credentials").status, Status::Fail);
}

#[test]
fn mod_accepts_a_token_already_seeded_into_claude_home() {
    let session = healthy();
    let mut found = found(&session);
    found.seeded = true;

    let checks = tool(
        &session,
        &mut ContainerTool::with_images(&["compostbin/base:latest"]),
        &found,
        &mut FakeSource::new(None),
        false,
    );

    assert_eq!(check(&checks, "credentials").status, Status::Pass);
}

#[test]
fn doctor_accepts_a_token_already_seeded_into_claude_home() {
    let session = healthy();
    let mut found = found(&session);
    found.seeded = true;

    let checks = engine(
        &session,
        &mut RecordingEngine::with_images(&["compostbin/base:latest"]),
        &found,
        &mut FakeSource::new(None),
        false,
    );

    assert_eq!(check(&checks, "credentials").status, Status::Pass);
}

#[test]
fn mod_warns_about_a_mounted_path_holding_credentials() {
    let mut session = healthy();
    add_path(&mut session, "/Users/user/.ssh", true);

    let checks = tool(
        &session,
        &mut ContainerTool::with_images(&["compostbin/base:latest"]),
        &found(&session),
        &mut in_keychain(),
        false,
    );

    let breadth = check(&checks, "mount breadth");
    assert_eq!(breadth.status, Status::Warn);
    assert!(
        findings(breadth).contains(".ssh"),
        "detail should name the secret: {breadth:?}"
    );
}

#[test]
fn doctor_warns_about_a_mounted_path_holding_credentials() {
    let mut session = healthy();
    add_path(&mut session, "/Users/user/.ssh", true);

    let checks = engine(
        &session,
        &mut RecordingEngine::with_images(&["compostbin/base:latest"]),
        &found(&session),
        &mut in_keychain(),
        false,
    );

    let breadth = check(&checks, "mount breadth");
    assert_eq!(breadth.status, Status::Warn);
    assert!(
        findings(breadth).contains(".ssh"),
        "detail should name the secret: {breadth:?}"
    );
}

#[test]
fn warns_about_an_indirect_credential_path() {
    let mut session = healthy();
    add_path(&mut session, "/Users/user/workspace/../.ssh", true);
    add_path(&mut session, "/Users/user/keys", true);
    let mut found = found(&session);
    for place in found.led_to.iter_mut() {
        if place.display().ends_with("../.ssh") || place.display().ends_with("keys") {
            *place = "/Users/user/.ssh".into();
        }
    }

    let checks = tool(
        &session,
        &mut ContainerTool::with_images(&["compostbin/base:latest"]),
        &found,
        &mut in_keychain(),
        false,
    );

    let breadth = check(&checks, "mount breadth");
    assert_eq!(breadth.status, Status::Warn);
    assert!(
        findings(breadth).contains("workspace/../.ssh") && findings(breadth).contains("keys"),
        "both routes to .ssh should be named: {breadth:?}"
    );
}

#[test]
fn mod_lists_every_command_the_guest_can_run_on_the_host() {
    let mut session = healthy();
    declare_commands(&mut session);

    let checks = tool(
        &session,
        &mut ContainerTool::with_images(&["compostbin/base:latest"]),
        &found(&session),
        &mut in_keychain(),
        false,
    );

    let allowlist = check(&checks, "host commands");
    assert_eq!(
        allowlist.status,
        Status::Warn,
        "a command the guest may append arguments to deserves a warning: {allowlist:?}"
    );
    assert_eq!(
        allowlist.items,
        ["test = cargo nextest run", "test-one = cargo nextest run (+ guest arguments)"],
        "one command per line, the widened one marked: {allowlist:?}"
    );
}

#[test]
fn doctor_lists_every_command_the_guest_can_run_on_the_host() {
    let mut session = healthy();
    declare_commands(&mut session);

    let checks = engine(
        &session,
        &mut RecordingEngine::with_images(&["compostbin/base:latest"]),
        &found(&session),
        &mut in_keychain(),
        false,
    );

    let allowlist = check(&checks, "host commands");
    assert_eq!(
        allowlist.status,
        Status::Warn,
        "a command the guest may append arguments to deserves a warning: {allowlist:?}"
    );
    assert_eq!(
        allowlist.items,
        ["test = cargo nextest run", "test-one = cargo nextest run (+ guest arguments)"],
        "one command per line, the widened one marked: {allowlist:?}"
    );
}

#[test]
fn mod_warns_when_the_running_container_predates_a_manifest_change() {
    let mut session = healthy();
    let started = Record::of(&session.mounts());
    add_path(&mut session, "/Users/user/vendor", false);
    let mut found = found(&session);
    found.record = Ok(Some(started));

    let checks = tool(&session, &mut ContainerTool::with_containers(&[("compostbin-cb", true)]), &found, &mut in_keychain(), false);

    let mounts = check(&checks, "container mounts");
    assert_eq!(mounts.status, Status::Warn);
    assert!(
        findings(mounts).contains("vendor"),
        "detail should name the path that is not really mounted: {mounts:?}"
    );
    assert!(
        mounts.detail.contains("compostbin stop"),
        "the fix is not guessable, so it has to be printed: {mounts:?}"
    );
}

#[test]
fn doctor_warns_when_the_running_container_predates_a_manifest_change() {
    let mut session = healthy();
    let started = Record::of(&session.mounts());
    add_path(&mut session, "/Users/user/vendor", false);
    let mut found = found(&session);
    found.record = Ok(Some(started));

    let checks = engine(&session, &mut RecordingEngine::with_running(&["compostbin-cb"]), &found, &mut in_keychain(), false);

    let mounts = check(&checks, "container mounts");
    assert_eq!(mounts.status, Status::Warn);
    assert!(
        findings(mounts).contains("vendor"),
        "detail should name the path that is not really mounted: {mounts:?}"
    );
    assert!(
        mounts.detail.contains("compostbin stop"),
        "the fix is not guessable, so it has to be printed: {mounts:?}"
    );
}

#[test]
fn mod_accepts_a_running_container_that_matches_the_manifest() {
    let session = healthy();
    let mut found = found(&session);
    found.record = Ok(Some(Record::of(&session.mounts())));

    let checks = tool(&session, &mut ContainerTool::with_containers(&[("compostbin-cb", true)]), &found, &mut in_keychain(), false);

    assert_eq!(check(&checks, "container mounts").status, Status::Pass);
}

#[test]
fn doctor_accepts_a_running_container_that_matches_the_manifest() {
    let session = healthy();
    let mut found = found(&session);
    found.record = Ok(Some(Record::of(&session.mounts())));

    let checks = engine(&session, &mut RecordingEngine::with_running(&["compostbin-cb"]), &found, &mut in_keychain(), false);

    assert_eq!(check(&checks, "container mounts").status, Status::Pass);
}

#[test]
fn mod_says_nothing_is_running_rather_than_warning() {
    let session = healthy();

    let checks = tool(
        &session,
        &mut ContainerTool::with_images(&["compostbin/base:latest"]),
        &found(&session),
        &mut in_keychain(),
        false,
    );

    let mounts = check(&checks, "container mounts");
    assert_eq!(mounts.status, Status::Pass);
    assert!(mounts.detail.contains("not running"), "{mounts:?}");
}

#[test]
fn doctor_says_nothing_is_running_rather_than_warning() {
    let session = healthy();

    let checks = engine(
        &session,
        &mut RecordingEngine::with_images(&["compostbin/base:latest"]),
        &found(&session),
        &mut in_keychain(),
        false,
    );

    let mounts = check(&checks, "container mounts");
    assert_eq!(mounts.status, Status::Pass);
    assert!(mounts.detail.contains("not running"), "{mounts:?}");
}

#[test]
fn mod_warns_about_a_running_container_that_was_never_recorded() {
    let session = healthy();

    let checks = tool(&session, &mut ContainerTool::with_containers(&[("compostbin-cb", true)]), &found(&session), &mut in_keychain(), false);

    let mounts = check(&checks, "container mounts");
    assert_eq!(
        mounts.status,
        Status::Warn,
        "an unrecorded container is one we can say nothing about: {mounts:?}"
    );
}

#[test]
fn doctor_warns_about_a_running_container_that_was_never_recorded() {
    let session = healthy();

    let checks = engine(&session, &mut RecordingEngine::with_running(&["compostbin-cb"]), &found(&session), &mut in_keychain(), false);

    let mounts = check(&checks, "container mounts");
    assert_eq!(
        mounts.status,
        Status::Warn,
        "an unrecorded container is one we can say nothing about: {mounts:?}"
    );
}

#[test]
fn mod_reports_no_host_channel_when_none_is_declared() {
    let session = healthy();

    let checks = tool(
        &session,
        &mut ContainerTool::with_images(&["compostbin/base:latest"]),
        &found(&session),
        &mut in_keychain(),
        false,
    );

    assert_eq!(check(&checks, "host commands").status, Status::Pass);
}

#[test]
fn doctor_reports_no_host_channel_when_none_is_declared() {
    let session = healthy();

    let checks = engine(
        &session,
        &mut RecordingEngine::with_images(&["compostbin/base:latest"]),
        &found(&session),
        &mut in_keychain(),
        false,
    );

    assert_eq!(check(&checks, "host commands").status, Status::Pass);
}

#[test]
fn a_record_that_cannot_be_read_is_said() {
    let session = healthy();
    let mut found = found(&session);
    found.record = Err(ManifestError::Io(PathError::new(
        session.mount_record(),
        "permission denied".to_string(),
        false,
    )));

    let checks = engine(
        &session,
        &mut RecordingEngine::with_running(&["compostbin-cb"]),
        &found,
        &mut in_keychain(),
        false,
    );

    let mounts = check(&checks, "container mounts");
    assert_eq!(mounts.status, Status::Warn);
    assert!(mounts.detail.contains("permission denied"), "{mounts:?}");
}

#[test]
fn says_which_ports_nothing_answers_behind() {
    let mut session = healthy();
    session.manifest.host.ports = vec![7001, 7002];
    let mut found = found(&session);
    found.answering = vec![true, false];

    let checks = engine(
        &session,
        &mut RecordingEngine::with_images(&["compostbin/base:latest"]),
        &found,
        &mut in_keychain(),
        false,
    );

    let ports = check(&checks, "host ports");
    assert_eq!(ports.status, Status::Warn);
    assert_eq!(ports.items.len(), 2);
    assert_eq!(ports.items[0], "localhost:7001");
    assert!(ports.items[1].starts_with("localhost:7002 "), "{ports:?}");
}

#[test]
fn warns_when_the_relay_of_a_running_container_is_gone() {
    let mut session = healthy();
    session.manifest.host.ports = vec![7001];
    let mut found = found(&session);
    found.served = false;

    let checks = engine(
        &session,
        &mut RecordingEngine::with_running(&["compostbin-cb"]),
        &found,
        &mut in_keychain(),
        false,
    );

    assert_eq!(check(&checks, "host ports").status, Status::Warn);
}

#[test]
fn asks_the_keychain_only_for_a_token_that_would_be_used() {
    let mut session = healthy();
    session.manifest.claude.seed_from_keychain = false;
    let mut source = in_keychain();

    let checks = engine(
        &session,
        &mut RecordingEngine::with_images(&["compostbin/base:latest"]),
        &found(&session),
        &mut source,
        false,
    );

    assert!(source.given.is_empty());
    assert_eq!(check(&checks, "credentials").status, Status::Fail);
}

#[test]
fn says_what_kept_the_keychain_from_answering() {
    let assistant = Assistant::default();
    let locked = Err(CredentialError::Keychain("locked".to_string()));

    assert_eq!(
        doctor::host::answered(&assistant, &locked, false).detail,
        "reading the login Keychain: locked"
    );
    assert_eq!(doctor::host::answered(&assistant, &locked, true).status, Status::Pass);
    assert_eq!(
        doctor::host::answered(&assistant, &Ok(Some("token".to_string())), false).detail,
        with_name("{Name} Code-credentials in the Keychain").as_str()
    );
    assert_eq!(
        doctor::host::answered(&assistant, &Ok(None), false).detail,
        with_name("no {Name} Code-credentials entry and no ANTHROPIC_API_KEY; the session cannot authenticate").as_str()
    );
}

// The report.

fn report(name: &str, status: Status, detail: &str, items: &[&str]) -> Check {
    Check { detail: detail.to_string(), items: words(items), name: name.to_string(), status }
}

#[test]
fn prints_a_check_without_findings_on_one_line() {
    assert_eq!(
        Diagnosis(&vec![report("image store", Status::Pass, "readable", &[])]).to_string(),
        "ok    image store: readable\n"
    );
}

#[test]
fn prints_each_finding_on_its_own_line_under_the_check() {
    assert_eq!(
        Diagnosis(&vec![report(
            "host commands",
            Status::Warn,
            "these run on the host as you",
            &["fmt = cargo fmt --all", "test = cargo nextest run --workspace"],
        )])
        .to_string(),
        "warn  host commands: these run on the host as you\n    fmt = cargo fmt --all\n    test = cargo nextest run --workspace\n"
    );
}

#[test]
fn prints_a_failure_in_the_same_column() {
    assert_eq!(
        Diagnosis(&vec![report("base image", Status::Fail, "missing", &[])]).to_string(),
        "FAIL  base image: missing\n"
    );
}

#[test]
fn asks_the_engine_and_hands_on_what_it_answered() {
    let session = session("/Users/user/workspace");
    let mut engine = RecordingEngine::with_images(&["compostbin/base:latest"]);
    engine.running = vec![session.container_name()];

    let answers = doctor::ask(&session, &mut engine);

    assert_eq!(answers.images, Ok(vec!["compostbin/base:latest".to_string()]));
    assert_eq!(answers.version, Ok(Some("Containerization 0.45.0".to_string())));
    assert_eq!(answers.running, Ok(true));

    let answers = doctor::ask(&session, &mut RecordingEngine::new());

    assert!(answers.images.is_err());
    assert_eq!(answers.version, Ok(None));
    assert_eq!(answers.running, Ok(false));
}

use compostbin::assistant::Assistant;
use compostbin::cli::{
    added, attachable, building, cleaned, entrypoint, exit_status, framework_selected, ls, notify,
    refusal, wrote, Line,
};
use compostbin::error::PathError;
use compostbin::host::ports::{Forward, PortEvent};
use compostbin::manifest::Manifest;
use compostbin::paths::{PathBuf, PathResolver};
use compostbin::session::run::{Notice, Process};
use compostbin::session::{AddOutcome, Session};

/// The name of the assistant that sessions run, as the name of its variable has it.
fn name() -> String {
    "CLAUDE_CONFIG_DIR".split('_').next().expect("a word").to_lowercase()
}

/// A text with the assistant's name filled in.
fn with_name(text: &str) -> String {
    let name = name();
    let capitalized = format!("{}{}", name[..1].to_uppercase(), &name[1..]);

    text.replace("{name}", &name)
        .replace("{NAME}", &name.to_uppercase())
        .replace("{Name}", &capitalized)
}

fn words(list: &[&str]) -> Vec<String> {
    list.iter().map(|word| word.to_string()).collect()
}

fn resolver() -> PathResolver {
    PathResolver::new("/Users/user/my-project".into(), "/Users/user".into())
}

fn session() -> Session {
    let project_dir = PathBuf::from("/Users/user/my-project");
    Session::new(
        Assistant::default(),
        Manifest::named_after(&project_dir),
        resolver(),
        project_dir,
    )
}

#[test]
fn init_writes_a_manifest_named_after_the_directory() {
    let manifest = session().manifest;

    assert_eq!(manifest.project.name, Some("my-project".to_string()));
    assert_eq!(manifest.project.image, "compostbin/base:latest");
    assert!(manifest.claude.seed_from_keychain);
    assert_eq!(manifest.container.cpus, 4);
    assert_eq!(manifest.container.memory.to_string(), "8G");
    assert!(manifest.workspace.roots.is_empty() && manifest.container.env.is_empty());
}

#[test]
fn ls_shows_where_each_path_lands_in_the_container() {
    assert_eq!(
        ls(&session()),
        [
            "/Users/user/my-project -> /workspace/my-project (project)",
            with_name("/Users/user/.local/state/compostbin/sessions/compostbin-my-project/{name}-home -> /home/{name}/.{name} ({name} home)").as_str(),
        ]
    );
}

#[test]
fn ls_marks_what_is_readonly_and_where_it_came_from() {
    let mut session = session();
    session.manifest.workspace.roots = words(&["~/workspace"]);
    session.add("/Users/user/vendor".into(), true, false);
    session.add("/Users/user/mine".into(), false, true);

    assert_eq!(
        ls(&session)[..4],
        [
            "/Users/user/workspace -> /workspace/workspace (in-root)",
            "/Users/user/my-project -> /workspace/my-project (project)",
            "/Users/user/vendor -> /workspace/vendor (explicit, readonly)",
            "/Users/user/mine -> /workspace/mine (local)",
        ]
    );
}

#[test]
fn add_refuses_a_path_full_of_credentials() {
    let lines = refusal(&"/Users/user/.ssh".into(), &resolver(), false)
        .expect("add should refuse ~/.ssh");

    assert!(lines.iter().all(|line| line.error));
    assert!(
        lines.iter().any(|line| line.text.contains("--force")),
        "the refusal should name the override: {lines:?}"
    );
    assert!(lines[0].text.starts_with("refusing to mount /Users/user/.ssh: "), "{lines:?}");
}

#[test]
fn add_mounts_a_secret_when_forced() {
    assert_eq!(refusal(&"/Users/user/.ssh".into(), &resolver(), true), None);
    assert_eq!(refusal(&"/Users/user/code".into(), &resolver(), false), None);
}

#[test]
fn add_inside_a_root_records_no_path_entry() {
    let mut session = session();
    session.manifest.workspace.roots = words(&["~/workspace"]);
    let path = PathBuf::from("/Users/user/workspace/inside");

    let outcome = session.add(path.clone(), false, false);

    assert_eq!(outcome, AddOutcome::AlreadyMounted { root: "/Users/user/workspace".into() });
    assert!(added(&path, &outcome).text.contains("already mounted"));
    assert!(session.manifest.paths.is_empty());
}

#[test]
fn add_outside_every_root_records_a_path_and_says_how_to_mount_it() {
    let mut session = session();
    let path = PathBuf::from("/Users/user/outside");

    let outcome = session.add(path.clone(), true, false);

    assert!(
        added(&path, &outcome).text.contains("compostbin run -- --continue"),
        "stdout must say how to make the path visible"
    );
    assert_eq!(session.manifest.paths[0].source, "/Users/user/outside");
    assert!(session.manifest.paths[0].readonly);
}

#[test]
fn add_local_records_the_path_beside_the_committed_manifest() {
    let mut session = session();
    session.add("/Users/user/outside".into(), false, true);

    assert!(
        session.manifest.shared_paths().is_empty(),
        "--local must leave the committed manifest untouched"
    );
    let local = session.manifest.local_manifest().expect("a local manifest");
    assert_eq!(local.paths[0].source, "/Users/user/outside");
    assert!(
        ls(&session).iter().any(|line| line.contains("local")
            && line.contains("/Users/user/outside")),
        "ls should list the local path as local"
    );
}

#[test]
fn clean_says_what_it_cleared_or_removed() {
    assert_eq!(cleaned(false, &"/state/host".into()), "cleared /state/host");
    assert_eq!(cleaned(true, &"/state".into()), "removed /state");
    assert_eq!(wrote(&"/p/.config/compostbin.toml".into()), "wrote /p/.config/compostbin.toml");
}

#[test]
fn build_says_what_it_builds() {
    let mut session = session();
    assert_eq!(
        building(&session),
        ["building compostbin/base:latest into /Users/user/.cache/compostbin/images"]
    );

    session.manifest.image.packages = words(&["jq"]);
    assert_eq!(building(&session)[1], "then compostbin/compostbin-my-project:latest");
}

#[test]
fn run_attaches_the_assistant_unless_told_otherwise() {
    let assistant = Assistant::default();

    assert_eq!(
        entrypoint(&assistant, None, &words(&["--continue"]), name().as_str()),
        Process {
            arguments: words(&[name().as_str(), "--continue"]),
            tty: true,
            user: Some(name()),
        }
    );
    assert_eq!(
        entrypoint(&assistant, Some("bash"), &words(&["-l"]), "root"),
        Process {
            arguments: words(&["bash", "-l"]),
            tty: true,
            user: Some("root".to_string()),
        }
    );
}

#[test]
fn a_terminal_asked_for_is_a_terminal_required() {
    let wanted = Process::command(&words(&["bash"]), true, name().as_str());
    let piped = Process::command(&words(&["bash"]), false, name().as_str());

    assert_eq!(attachable(&wanted, true, true), Ok(()));
    assert!(attachable(&wanted, true, false).is_err());
    assert!(attachable(&wanted, false, true).is_err());
    assert_eq!(attachable(&piped, false, false), Ok(()));
}

#[test]
fn an_exit_code_that_does_not_fit_is_a_failure() {
    assert_eq!(exit_status(0), 0);
    assert_eq!(exit_status(255), 255);
    assert_eq!(exit_status(256), 1);
    assert_eq!(exit_status(-1), 1);
}

#[test]
fn the_framework_is_chosen_by_name() {
    assert!(framework_selected(Some("framework")));
    assert!(!framework_selected(Some("container")));
    assert!(!framework_selected(None));
}

#[test]
fn every_notice_has_its_words() {
    let assistant = Assistant::default();
    let gone = || PathError::new("/spool".into(), "busy".to_string(), false);
    let forward = || Forward::to_loopback(&"/state/ports".into(), 7001);
    let said = |notice: Notice| notify(&assistant, &notice);

    assert_eq!(
        said(Notice::NotInKeychain),
        Line {
            error: true,
            text: with_name("no \"{Name} Code-credentials\" entry in the login Keychain; the session will need ANTHROPIC_API_KEY or an interactive login"),
        }
    );
    assert_eq!(
        said(Notice::Shared(words(&["settings.json", "skills"]))),
        Line {
            error: false,
            text: with_name("shared from your own ~/.{name}: settings.json, skills"),
        }
    );
    assert_eq!(said(Notice::Unpacking("a:b".to_string())).text, "compostbin: unpacking a:b");
    assert_eq!(
        said(Notice::SetupFailed { line: "make".to_string(), code: 2 }).text,
        "compostbin: setup `make` exited 2"
    );
    assert_eq!(
        said(Notice::Port(PortEvent::Listening(forward()))).text,
        format!("compostbin: {}", PortEvent::Listening(forward()).to_string())
    );
    assert_eq!(
        said(Notice::AgentStopped(gone())).text,
        "compostbin: the host command agent stopped: /spool: busy"
    );
    assert_eq!(
        said(Notice::CleanupFailed(gone())).text,
        "compostbin: could not clean up after the session: /spool: busy"
    );
}

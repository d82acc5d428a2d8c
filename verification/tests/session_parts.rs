use compostbin::assistant::Assistant;
use compostbin::engine::model::Mount;
use compostbin::error::CredentialError;
use compostbin::manifest::commands::HostCommand;
use compostbin::manifest::Manifest;
use compostbin::paths::PathBuf;
use compostbin::session::briefing::{
    briefing, managed_settings, BRIEFING_FILE, MANAGED_SETTINGS_FILE,
};
use compostbin::session::credentials::{
    seed, seeded, FakeSource, Keychain, Seed, SeedOutcome, CREDENTIALS_FILE_NAME,
    CREDENTIALS_MODE, KEYCHAIN_ITEM_NOT_FOUND,
};
use compostbin::session::record::{Drift, Record};
use compostbin::session::settings::{
    candidates, host_claude_settings, manner, share, within, Kind, Manner, HOST_CLAUDE_SETTINGS, MAX_DEPTH,
};

/// The name of the assistant that sessions run, as the name of its variable has it.
fn name() -> String {
    "CLAUDE_CONFIG_DIR".split('_').next().expect("a word").to_lowercase()
}

/// A text with the assistant's name filled in.
fn with_name(text: &str) -> String {
    let name = name();
    let capitalized = format!("{}{}", name[..1].to_uppercase(), &name[1..]);

    text.replace("{name}", &name)
        .replace("{NAME}", &name.to_uppercase())
        .replace("{Name}", &capitalized)
}

fn words(list: &[&str]) -> Vec<String> {
    list.iter().map(|word| word.to_string()).collect()
}

fn assistant() -> Assistant {
    Assistant::default()
}

// The briefing.

fn manifest_with_commands() -> Manifest {
    let mut manifest = Manifest::default();
    manifest.host.commands.insert(
        "test".to_string(),
        HostCommand {
            arguments: false,
            argv: words(&["cargo", "nextest", "run", "--workspace"]),
            deny: Vec::new(),
            tty: false,
        },
    );
    manifest.host.commands.insert(
        "test-one".to_string(),
        HostCommand {
            arguments: true,
            argv: words(&["cargo", "nextest", "run"]),
            deny: Vec::new(),
            tty: true,
        },
    );
    manifest
}

#[test]
fn managed_settings_run_the_briefing_at_session_start() {
    let settings = managed_settings(&assistant());

    assert!(settings.contains("\"SessionStart\""), "{settings}");
    assert!(
        settings.contains(with_name("\"command\": \"cat /etc/{name}-code/session-context.txt\"").as_str()),
        "the hook must print the file the same mount carries: {settings}"
    );
}

#[test]
fn the_briefing_names_the_container() {
    let briefing = briefing(&Manifest::default());

    assert!(
        briefing.contains("compostbin container"),
        "a session that does not know where it is cannot act on the rest: {briefing}"
    );
}

#[test]
fn the_briefing_lists_every_declared_command() {
    let briefing = briefing(&manifest_with_commands());

    assert!(
        briefing.contains("compostbin-host test      cargo nextest run --workspace"),
        "the name is what the guest sends, the argv is what it means: {briefing}"
    );
    assert!(
        briefing.contains("compostbin-host test-one  cargo nextest run"),
        "{briefing}"
    );
}

#[test]
fn the_briefing_marks_a_widened_command() {
    let briefing = briefing(&manifest_with_commands());

    assert!(
        briefing.contains("takes further arguments"),
        "a guest told nothing appends arguments to a command that refuses them: {briefing}"
    );
    assert!(briefing.contains("when your stdout is a terminal"), "{briefing}");
}

#[test]
fn the_briefing_says_so_when_there_is_no_channel() {
    let briefing = briefing(&Manifest::default());

    assert!(
        !briefing.contains("compostbin-host <name>"),
        "there is no host channel to point at: {briefing}"
    );
    assert!(briefing.contains("no host commands"), "{briefing}");
}

#[test]
fn writes_both_files() {
    let target = PathBuf::from("/state/managed");

    let (settings, context) =
        compostbin::session::briefing::write(&assistant(), &target, &manifest_with_commands());

    assert_eq!(settings.path, target.join(MANAGED_SETTINGS_FILE));
    assert_eq!(settings.contents, managed_settings(&assistant()));
    assert_eq!(context.path, target.join(BRIEFING_FILE));
    assert_eq!(context.contents, briefing(&manifest_with_commands()));
}

// The record.

fn mount(source: &str, target: &str) -> Mount {
    Mount { readonly: false, source: source.into(), target: target.into() }
}

fn recorded(mounts: &[Mount]) -> Record {
    Record::of(mounts)
}

#[test]
fn an_unchanged_manifest_has_not_drifted() {
    let mounts = [mount("/host/a", "/workspace/a"), mount("/host/b", "/workspace/b")];

    assert!(recorded(&mounts).drift(&mounts).is_empty());
}

#[test]
fn a_mount_added_since_the_container_started_is_invisible_in_the_session() {
    let started = [mount("/host/a", "/workspace/a")];
    let wanted = [mount("/host/a", "/workspace/a"), mount("/host/b", "/workspace/b")];

    let drift = recorded(&started).drift(&wanted);

    assert_eq!(drift.added, ["/host/b -> /workspace/b"]);
    assert!(drift.changed.is_empty() && drift.removed.is_empty(), "{drift:?}");
    assert!(
        drift.lines().join("\n").contains("invisible in the session"),
        "the message must say what the user would otherwise just see fail: {drift:?}"
    );
}

#[test]
fn a_mount_dropped_from_the_manifest_is_still_exposed() {
    let started =
        [mount("/host/a", "/workspace/a"), mount("/host/secret", "/workspace/secret")];
    let wanted = [mount("/host/a", "/workspace/a")];

    let drift = recorded(&started).drift(&wanted);

    assert_eq!(drift.removed, ["/host/secret -> /workspace/secret"]);
    assert!(
        drift.lines().join("\n").contains("still exposed"),
        "an undeclared mount that is still live is the security-relevant half: {drift:?}"
    );
}

#[test]
fn a_mount_whose_source_moved_reads_as_one_change() {
    let drift = recorded(&[mount("/host/old", "/workspace/a")])
        .drift(&[mount("/host/new", "/workspace/a")]);

    assert!(drift.added.is_empty() && drift.removed.is_empty(), "{drift:?}");
    assert_eq!(drift.changed.len(), 1);
    assert!(
        drift.changed[0].contains("/host/old") && drift.changed[0].contains("/host/new"),
        "the change must name both sides: {drift:?}"
    );
}

#[test]
fn a_mount_that_became_writable_has_drifted() {
    let started = [Mount {
        readonly: true,
        source: "/host/registry".into(),
        target: "/workspace/registry".into(),
    }];
    let wanted = [mount("/host/registry", "/workspace/registry")];

    let drift = recorded(&started).drift(&wanted);

    assert_eq!(drift.changed.len(), 1, "`:ro` is kernel-enforced, so it is real: {drift:?}");
    assert!(drift.changed[0].contains("readonly"), "{drift:?}");
}

#[test]
fn nothing_has_drifted_by_default() {
    assert!(Drift::default().is_empty());
    assert!(Drift::default().lines().is_empty());
    assert!(Record::default().mounts.is_empty());
}

// Credentials.

const SECRET: &str = "{\"token\":\"opaque\"}";

fn home() -> PathBuf {
    PathBuf::from(with_name("/state/{name}-home").as_str())
}

fn found() -> FakeSource {
    FakeSource::new(Some(SECRET.to_string()))
}

#[test]
fn writes_the_keychain_secret_into_a_missing_claude_home() {
    let mut source = found();

    assert_eq!(
        seed(&home(), true, false, &mut source).expect("seeding should succeed"),
        Seed::Write {
            destination: home().join(CREDENTIALS_FILE_NAME),
            token: SECRET.to_string(),
        }
    );
    assert_eq!(source.given.len(), 1);
}

#[test]
fn keeps_a_token_the_container_already_refreshed() {
    let mut source = found();

    assert_eq!(
        seed(&home(), true, true, &mut source).expect("seeding should succeed"),
        Seed::Done(SeedOutcome::KeptExisting)
    );
    assert!(source.given.is_empty());
}

#[test]
fn writes_nothing_when_seeding_is_disabled() {
    let mut source = found();

    assert_eq!(
        seed(&home(), false, false, &mut source).expect("seeding should succeed"),
        Seed::Done(SeedOutcome::Disabled)
    );
    assert!(source.given.is_empty());
}

#[test]
fn reports_a_missing_keychain_entry_without_failing() {
    let mut source = FakeSource::new(None);

    assert_eq!(
        seed(&home(), true, false, &mut source).expect("seeding should succeed"),
        Seed::Done(SeedOutcome::NotInKeychain)
    );
    assert_eq!(seeded(&home(), None), Seed::Done(SeedOutcome::NotInKeychain));
}

#[test]
fn writes_the_token_readable_only_by_its_owner() {
    assert_eq!(CREDENTIALS_MODE & 0o777, 0o600, "a token must not be world-readable");
}

#[test]
fn asks_the_keychain_for_the_assistants_item() {
    assert_eq!(
        Keychain::arguments(&assistant()),
        ["find-generic-password", "-s", with_name("{Name} Code-credentials").as_str(), "-w"]
    );
}

#[test]
fn reads_what_the_keychain_said() {
    assert_eq!(
        Keychain::reply(Some(0), &format!("{SECRET}\n"), ""),
        Ok(Some(SECRET.to_string()))
    );
    assert_eq!(Keychain::reply(Some(KEYCHAIN_ITEM_NOT_FOUND), "", "not found"), Ok(None));
    assert_eq!(
        Keychain::reply(Some(1), "", "user denied\n"),
        Err(CredentialError::Keychain("user denied".to_string()))
    );
}

// Settings.

#[test]
fn copies_the_host_settings_without_being_asked() {
    let names = candidates(&assistant(), &Vec::new());
    let copied = share(
        &PathBuf::from("/host"),
        &PathBuf::from("/session"),
        &names,
        &vec![Kind::File, Kind::File, Kind::Directory],
    );

    assert_eq!(names[0], with_name("{NAME}.md").as_str());
    assert_eq!(names[1..], HOST_CLAUDE_SETTINGS);
    assert_eq!(
        copied.iter().map(|entry| entry.name.clone()).collect::<Vec<String>>(),
        names
    );
    assert_eq!(copied[0].source, PathBuf::from(with_name("/host/{NAME}.md").as_str()));
    assert_eq!(copied[0].destination, PathBuf::from(with_name("/session/{NAME}.md").as_str()));
    assert_eq!(copied[0].manner, Manner::File);
    assert_eq!(copied[2].manner, Manner::Tree(MAX_DEPTH));
}

#[test]
fn adds_what_the_manifest_asks_for_and_names_it_once() {
    assert_eq!(
        candidates(&assistant(), &words(&["agents.json", with_name("{NAME}.md").as_str()])),
        [with_name("{NAME}.md").as_str(), "settings.json", "skills", "agents.json"]
    );
}

#[test]
fn settings_shares_nothing_the_host_does_not_have() {
    let names = candidates(&assistant(), &words(&["../.ssh/id_ed25519"]));
    let copied = share(
        &PathBuf::from("/host"),
        &PathBuf::from("/session"),
        &names,
        &vec![Kind::Other; names.len()],
    );

    assert!(!names.contains(&"../.ssh/id_ed25519".to_string()), "{names:?}");
    assert_eq!(copied, Vec::new());
}

#[test]
fn credentials_shares_nothing_the_host_does_not_have() {
    for escaping in ["../.ssh/id_ed25519", "..", ".", "/etc/passwd"] {
        assert_eq!(
            candidates(&assistant(), &words(&[escaping])),
            [with_name("{NAME}.md").as_str(), "settings.json", "skills"]
        );
    }
}

#[test]
fn copies_a_tree_only_so_deep() {
    assert_eq!(manner(Kind::Directory, MAX_DEPTH), Some(Manner::Tree(MAX_DEPTH)));
    assert_eq!(manner(Kind::File, MAX_DEPTH), Some(Manner::File));
    assert_eq!(manner(Kind::Other, MAX_DEPTH), None);
    assert_eq!(within(Kind::Directory, 2), Some(Manner::Tree(1)));
    assert_eq!(within(Kind::File, 1), Some(Manner::File));
}

/// The empty name would be the session's home itself.
#[test]
fn shares_nothing_under_an_empty_name() {
    assert_eq!(
        candidates(&assistant(), &words(&["", "agents.json"])),
        [with_name("{NAME}.md").as_str(), "settings.json", "skills", "agents.json"]
    );
}

#[test]
fn every_session_gets_the_same_three() {
    assert_eq!(
        host_claude_settings(&assistant()),
        [with_name("{NAME}.md").as_str(), "settings.json", "skills"]
    );
}

// The assistant.

#[test]
fn everything_is_called_after_the_assistant() {
    let assistant = Assistant::default();

    assert_eq!(assistant.name, name());
    assert_eq!(assistant.user_home(), with_name("/home/{name}").as_str());
    assert_eq!(assistant.guest_home(), with_name("/home/{name}/.{name}").as_str());
    assert_eq!(assistant.home_variable(), "CLAUDE_CONFIG_DIR");
    assert_eq!(assistant.host_home(), with_name("~/.{name}").as_str());
    assert_eq!(assistant.kept_home(), with_name("{name}-home").as_str());
    assert_eq!(assistant.guide(), with_name("{NAME}.md").as_str());
    assert_eq!(assistant.settings_dir(), with_name("/etc/{name}-code").as_str());
    assert_eq!(assistant.keychain_service(), with_name("{Name} Code-credentials").as_str());
    assert_eq!(assistant.install_step(), with_name("{name} code").as_str());
}

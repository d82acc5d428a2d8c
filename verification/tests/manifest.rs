use compostbin::manifest::commands::{Commands, HostCommand};
use compostbin::manifest::memory::Memory;
use compostbin::manifest::{
    local_path, HostConfig, LocalManifest, Manifest, PathEntry, CLIPBOARD_COMMAND,
    DEFAULT_HOST_CONCURRENCY,
};
use compostbin::paths::PathBuf;

fn words(list: &[&str]) -> Vec<String> {
    list.iter().map(|word| word.to_string()).collect()
}

fn command(argv: &[&str], arguments: bool, tty: bool) -> HostCommand {
    HostCommand { arguments, argv: words(argv), deny: Vec::new(), tty }
}

fn entry(source: &str, readonly: bool, local: bool) -> PathEntry {
    PathEntry { local, readonly, source: source.to_string(), target: None }
}

fn host() -> HostConfig {
    let mut host = HostConfig::default();
    host.commands.insert(
        "test".to_string(),
        command(&["cargo", "nextest", "run", "--workspace"], false, false),
    );
    host.commands.insert(
        "test-one".to_string(),
        command(&["cargo", "nextest", "run"], true, true),
    );
    host
}

#[test]
fn parses_host_commands_with_their_defaults() {
    let host = host();

    let exact = host.commands.get("test").expect("declared");
    assert_eq!(exact.argv, ["cargo", "nextest", "run", "--workspace"]);
    assert!(!exact.arguments, "arguments should be off unless asked for");
    assert!(!exact.tty, "a tty should be off unless asked for");

    let widened = host.commands.get("test-one").expect("declared");
    assert!(widened.arguments);
    assert!(widened.tty);
    assert_eq!(host.concurrency, DEFAULT_HOST_CONCURRENCY);
}

#[test]
fn ports_default_empty() {
    let host = host();

    assert!(host.ports.is_empty());
    assert!(host.has_commands());
    assert!(!host.has_ports());
}

#[test]
fn ports_alone_open_no_spool() {
    let mut host = HostConfig::default();
    host.ports = vec![7001, 7002];

    assert_eq!(host.ports, [7001, 7002]);
    assert!(host.has_ports());
    assert!(!host.has_commands(), "ports must not open the spool");
    assert!(!host.is_empty());
}

#[test]
fn clipboard_alone_opens_the_spool() {
    let mut host = HostConfig::default();
    host.clipboard = true;

    assert!(host.has_commands());
    let served = host.served_commands();
    assert_eq!(served.get(CLIPBOARD_COMMAND).expect("served").argv, ["pbcopy"]);
    assert_eq!(served.len(), 1);
}

#[test]
fn serves_no_clipboard_unless_asked() {
    assert!(!host().served_commands().contains_key(CLIPBOARD_COMMAND));
}

#[test]
fn a_declared_clipboard_command_wins() {
    let mut host = HostConfig::default();
    host.clipboard = true;
    host.commands.insert(
        "clipboard".to_string(),
        command(&["tee", "/tmp/copied"], false, false),
    );

    assert_eq!(
        host.served_commands().get(CLIPBOARD_COMMAND).expect("served").argv,
        ["tee", "/tmp/copied"]
    );
}

#[test]
fn commands_are_kept_in_order_of_their_names() {
    let mut commands = Commands::new();
    assert!(commands.is_empty());

    for name in ["test", "fmt", "lint", "fmt"] {
        commands.insert(name.to_string(), command(&[name], false, false));
    }

    assert_eq!(commands.names(), ["fmt", "lint", "test"]);
    assert_eq!(commands.len(), 3);
    assert_eq!(commands.get("build"), None);
}

#[test]
fn loads_local_paths_beside_the_manifest() {
    let mut manifest = Manifest::default();
    manifest.paths = vec![
        entry("~/.cargo/registry", true, false),
        entry("~/code/vendor/libfoo", false, false),
    ];

    manifest.overlay(LocalManifest { paths: vec![entry("~/scratch", true, false)] });

    assert_eq!(manifest.paths.len(), 3);
    let local: Vec<&PathEntry> = manifest.paths.iter().filter(|entry| entry.local).collect();
    assert_eq!(local.len(), 1);
    assert_eq!(local[0].source, "~/scratch");
    assert!(local[0].readonly);

    let committed: Vec<String> =
        manifest.shared_paths().into_iter().map(|entry| entry.source).collect();
    assert_eq!(
        committed,
        ["~/.cargo/registry", "~/code/vendor/libfoo"],
        "a local path must not reach the committed manifest"
    );
}

#[test]
fn renders_no_paths_when_every_one_is_local() {
    let mut manifest = Manifest::default();
    manifest.paths.push(entry("~/scratch", false, true));

    assert!(manifest.shared_paths().is_empty());
}

#[test]
fn saves_local_paths_to_their_own_file() {
    let mut manifest = Manifest::default();
    manifest.paths.push(entry("~/.cargo/registry", true, false));
    manifest.paths.push(entry("~/scratch", false, true));

    let local = manifest.local_manifest().expect("something local is recorded");
    let sources: Vec<&str> = local.paths.iter().map(|entry| entry.source.as_str()).collect();
    assert_eq!(sources, ["~/scratch"]);

    // Emptied, the file goes: nothing local is left for it to record.
    manifest.paths.retain(|entry| !entry.local);
    assert_eq!(manifest.local_manifest(), None);
}

#[test]
fn the_local_manifest_stands_beside_the_committed_one() {
    assert_eq!(
        local_path(&PathBuf::from("/p/.config/compostbin.toml")),
        PathBuf::from("/p/.config/compostbin.local.toml")
    );
}

#[test]
fn sorts_paths_by_source() {
    let mut manifest = Manifest::default();
    manifest.paths.push(entry("~/z-last", false, false));
    manifest.paths.push(entry("~/a-first", false, false));

    let sources: Vec<String> =
        manifest.shared_paths().into_iter().map(|entry| entry.source).collect();
    assert_eq!(sources, ["~/a-first", "~/z-last"]);
}

#[test]
fn reads_the_memory_forms_a_manifest_uses() {
    for (text, bytes) in [("8G", 8 << 30), ("512M", 512 << 20), ("1024k", 1 << 20), ("2048", 2048)]
    {
        assert_eq!(text.parse::<Memory>().map(Memory::bytes), Ok(bytes), "{text}");
    }
}

#[test]
fn writes_memory_back_the_way_it_reads() {
    for text in ["8G", "512M", "1536K", "1000"] {
        assert_eq!(
            text.parse::<Memory>().expect("a size should parse").to_string(),
            text
        );
    }
}

#[test]
fn refuses_memory_that_is_not_a_size() {
    for text in ["", "lots", "8GB", "8T", "0", "-1G"] {
        assert!(text.parse::<Memory>().is_err(), "{text:?} should not parse");
    }

    let error = "8GB".parse::<Memory>().expect_err("8GB is not a size");
    assert!(error.contains("\"8GB\" is not a memory size"), "{error}");
}

#[test]
fn refuses_memory_that_does_not_fit() {
    assert_eq!(
        Memory::read("17179869183G").map(Memory::bytes),
        Ok(18_446_744_072_635_809_792)
    );
    assert!(Memory::read("17179869184G").is_err());
    assert_eq!(Memory::read(" 8 G ").map(Memory::bytes), Ok(8 << 30));
}

#[test]
fn applies_defaults() {
    let manifest = Manifest::default();

    assert_eq!(manifest.project.image, "compostbin/base:latest");
    assert_eq!(manifest.project.name, None);

    assert_eq!(manifest.container.cpus, 4);
    assert!(manifest.container.env.is_empty());
    assert_eq!(manifest.container.memory, Memory::gibibytes(8));

    assert!(manifest.workspace.roots.is_empty());
    assert_eq!(manifest.paths.len(), 0);

    assert_eq!(
        manifest.claude.home, None,
        "an unset home is what makes the session's home per project"
    );
    assert!(manifest.claude.seed_from_keychain);
    assert!(
        manifest.claude.shared.is_empty(),
        "a project adds to the host's own settings rather than restating them"
    );

    assert!(
        manifest.image.is_empty(),
        "a project with no additions runs the base image itself"
    );
}

#[test]
fn init_names_the_manifest_after_the_directory() {
    let manifest = Manifest::named_after(&PathBuf::from("/tmp/my-project"));

    assert_eq!(manifest.project.name, Some("my-project".to_string()));
    assert_eq!(Manifest::named_after(&PathBuf::from("/")).project.name, None);
}

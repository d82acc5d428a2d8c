use compostbin::engine::cache::{
    digest_of, hashed_chain, hashed_tree, keys, unreadable, wants, Entry, Keys, Listing,
};
use compostbin::engine::collect::{Collection, Found};
use compostbin::engine::framework::{
    boot, build, builder_name, builder_name_drawn, builder_name_from, environment, working_directory, Direction,
};
use compostbin::engine::model::{
    BuildMount, BuildPlan, BuildStep, EnvVar, Label, Mount, Resources, RunSpec, SocketRelay,
};
use compostbin::engine::network::{network, FIRST_HOST, GATEWAY, LAST_HOST};
use compostbin::paths::PathBuf;

/// The name of the assistant that sessions run, as the name of its variable has it.
fn name() -> String {
    "CLAUDE_CONFIG_DIR".split('_').next().expect("a word").to_lowercase()
}

/// A text with the assistant's name filled in.
fn with_name(text: &str) -> String {
    let name = name();
    let capitalized = format!("{}{}", name[..1].to_uppercase(), &name[1..]);

    text.replace("{name}", &name)
        .replace("{NAME}", &name.to_uppercase())
        .replace("{Name}", &capitalized)
}

fn plan() -> BuildPlan {
    let mut plan = BuildPlan::new(
        "docker.io/library/debian:stable-slim",
        "compostbin/base:latest",
        Resources { cpus: 4, memory_in_bytes: 8 << 30 },
    );

    plan.environment = vec![with_name("CLAUDE_CONFIG_DIR=/home/{name}/.{name}")];
    plan.steps = vec![
        BuildStep::root("packages", "apt-get update"),
        BuildStep::as_user("bashrc", name().as_str(), "echo hook >> ~/.bashrc"),
    ];

    plan
}

fn keyed(plan: &BuildPlan) -> Keys {
    keys(plan, Vec::new()).expect("a plan with no context should key")
}

#[test]
fn gives_one_key_per_step_and_one_for_the_base() {
    let keys = keyed(&plan());

    assert_eq!(keys.steps.len(), 2);
    assert_ne!(keys.base, keys.steps[0]);
    assert_ne!(keys.steps[0], keys.steps[1]);
}

#[test]
fn is_the_same_chain_for_the_same_plan() {
    assert_eq!(keyed(&plan()), keyed(&plan()));
}

#[test]
fn changing_a_step_changes_that_key_and_every_one_after_it() {
    let before = keyed(&plan());

    let mut edited = plan();
    edited.steps[0] = BuildStep::root("packages", "apt-get update && apt-get install -y curl");
    let after = keyed(&edited);

    assert_eq!(before.base, after.base);
    assert_ne!(before.steps[0], after.steps[0]);
    assert_ne!(before.steps[1], after.steps[1]);
}

#[test]
fn changing_the_last_step_leaves_the_earlier_keys_alone() {
    let before = keyed(&plan());

    let mut edited = plan();
    edited.steps[1] = BuildStep::as_user("bashrc", name().as_str(), "echo other >> ~/.bashrc");
    let after = keyed(&edited);

    assert_eq!(before.steps[0], after.steps[0]);
    assert_ne!(before.steps[1], after.steps[1]);
}

#[test]
fn a_renamed_step_keeps_its_key() {
    let mut renamed = plan();
    renamed.steps[0] = BuildStep::root("debian packages", "apt-get update");

    assert_eq!(keyed(&plan()), keyed(&renamed));
}

#[test]
fn the_user_a_step_runs_as_is_part_of_its_key() {
    let mut elevated = plan();
    elevated.steps[1] = BuildStep::root("bashrc", "echo hook >> ~/.bashrc");

    assert_ne!(keyed(&plan()).steps[1], keyed(&elevated).steps[1]);
}

#[test]
fn a_step_without_a_user_is_keyed_as_one_of_root() {
    let mut named = plan();
    named.steps[0] = BuildStep::as_user("packages", "root", "apt-get update");

    assert_eq!(keyed(&plan()), keyed(&named));
}

#[test]
fn the_environment_is_part_of_every_key() {
    let mut other = plan();
    other.environment = vec!["CLAUDE_CONFIG_DIR=/elsewhere".to_string()];

    let before = keyed(&plan());
    let after = keyed(&other);

    assert_ne!(before.base, after.base);
    assert_ne!(before.steps[0], after.steps[0]);
}

#[test]
fn does_not_confuse_two_steps_with_one_of_their_two_scripts_joined() {
    let mut split = plan();
    split.steps = vec![BuildStep::root("a", "ab"), BuildStep::root("b", "c")];

    let mut joined = plan();
    joined.steps = vec![BuildStep::root("a", "a"), BuildStep::root("b", "bc")];

    assert_ne!(keyed(&split).steps[1], keyed(&joined).steps[1]);
}

/// Where `with_mount` lands what it shares.
const MOUNT: &str = "/mnt/scripts";

fn file(contents: &str) -> Entry {
    Entry::File { contents: contents.as_bytes().to_vec(), executable: false }
}

fn context_with(contents: &str) -> Vec<(String, Entry)> {
    vec![
        ("nested/other".to_string(), file("other")),
        ("relay".to_string(), file(contents)),
    ]
}

fn mounting(source: &str) -> BuildMount {
    BuildMount { destination: MOUNT.to_string(), readonly: true, source: PathBuf::from(source) }
}

fn with_mount(script: &str) -> BuildPlan {
    let mut plan = plan();

    plan.mounts = vec![mounting("/context")];
    plan.steps = vec![
        BuildStep::root("packages", "apt-get update"),
        BuildStep::root("guest scripts", script),
    ];

    plan
}

fn keyed_with(plan: &BuildPlan, contexts: Vec<Vec<(String, Entry)>>) -> Keys {
    let listings = contexts
        .into_iter()
        .enumerate()
        .map(|(j, context)| if wants(plan, j) { Listing::Read(context) } else { Listing::Unread })
        .collect();
    keys(plan, listings).expect("a key")
}

#[test]
fn a_mount_is_part_of_the_key_of_a_step_that_reads_it() {
    let plan = with_mount(&format!("install -m 755 {MOUNT}/relay /usr/local/bin/"));

    let first = keyed_with(&plan, vec![context_with("one")]);
    let second = keyed_with(&plan, vec![context_with("two")]);

    assert_eq!(first.steps[0], second.steps[0], "the step that does not read it");
    assert_ne!(first.steps[1], second.steps[1], "the step that does");
}

#[test]
fn a_mount_is_not_read_when_no_step_names_where_it_lands() {
    let plan = with_mount("apt-get install -y git");

    assert!(!wants(&plan, 0));
    assert_eq!(
        keyed_with(&plan, vec![context_with("one")]),
        keyed_with(&plan, vec![context_with("two")])
    );
}

#[test]
fn keys_every_mount_a_step_reads() {
    let mut plan =
        with_mount(&format!("cp {MOUNT}/relay /usr/local/bin/ && cp /mnt/extra/x /x"));
    plan.mounts.push(BuildMount { destination: "/mnt/extra".to_string(), ..mounting("/other") });

    let before = keyed_with(&plan, vec![context_with("one"), context_with("one")]);

    assert_ne!(
        before.steps[1],
        keyed_with(&plan, vec![context_with("one"), context_with("two")]).steps[1],
        "the second mount changed under a step that reads it"
    );
}

#[test]
fn keys_a_symlink_apart_from_a_file_holding_its_target_path() {
    let plan = with_mount(&format!("cp -r {MOUNT}/. /usr/local/bin/"));
    let mut linked = context_with("one");
    let mut written = context_with("one");

    linked.push(("link".to_string(), Entry::Link { target: "relay".to_string() }));
    written.push(("link".to_string(), file("relay")));

    assert_ne!(
        keyed_with(&plan, vec![linked]).steps[1],
        keyed_with(&plan, vec![written]).steps[1]
    );
}

#[test]
fn says_where_a_mount_it_cannot_read_was() {
    let mut plan = plan();

    plan.mounts = vec![mounting("/nonexistent/context")];
    plan.steps = vec![BuildStep::root("guest scripts", &format!("cp {MOUNT}/x /x"))];

    let unread = Listing::Failed {
        path: PathBuf::from("/nonexistent/context"),
        reason: "No such file or directory".to_string(),
    };
    let error = keys(&plan, vec![unread]).expect_err("an unreadable mount");

    assert!(
        error.to_string().contains("/nonexistent/context"),
        "the error should name the mount: {error:?}"
    );
    assert_eq!(
        error,
        unreadable(&PathBuf::from("/nonexistent/context"), "No such file or directory")
    );
}

#[test]
fn a_digest_does_not_depend_on_the_order_a_tree_was_listed_in() {
    let mut reversed = context_with("one");
    reversed.reverse();

    assert_eq!(digest_of(context_with("one")), digest_of(reversed));
    assert_ne!(digest_of(context_with("one")), digest_of(context_with("two")));
}

#[test]
fn an_executable_is_keyed_apart() {
    let plain = vec![("relay".to_string(), file("one"))];
    let runnable = vec![(
        "relay".to_string(),
        Entry::File { contents: b"one".to_vec(), executable: true },
    )];

    assert_ne!(digest_of(plain), digest_of(runnable));
}

/// The digest of nothing, as every implementation of SHA-256 gives it.
#[test]
fn an_empty_tree_has_the_digest_of_nothing() {
    assert_eq!(
        digest_of(Vec::new()),
        "e3b0c44298fc1c149afbf4c8996fb92427ae41e4649b934ca495991b7852b855"
    );
}

#[test]
fn gives_a_session_a_stable_address_on_the_nat_network() {
    let first = network("session-one");

    assert_eq!(network("session-one"), first);
    assert_ne!(network("session-two"), first);
    assert_eq!(first.ipv4_gateway, GATEWAY);
}

#[test]
fn keeps_every_address_inside_the_gateways_subnet() {
    for name in ["a", "session-one", "session-two", "", "-"] {
        let address = network(name).ipv4_address;
        let host: u64 = address
            .strip_prefix("192.168.64.")
            .and_then(|rest| rest.strip_suffix("/24"))
            .unwrap_or_else(|| panic!("{name} -> {address} should sit in the gateway's /24"))
            .parse()
            .expect("a host octet");

        assert!(
            (FIRST_HOST..=LAST_HOST).contains(&host),
            "{name} -> {address} should avoid the gateway and the broadcast address"
        );
    }
}

/// FNV-1a of no bytes is its offset basis, 14695981039346656037: 138 over the
/// 249 hosts there are.
#[test]
fn addresses_follow_from_the_hash_of_the_name() {
    let basis: u64 = 14_695_981_039_346_656_037;
    assert_eq!(
        network("").ipv4_address,
        format!("192.168.64.{}/24", 2 + basis % 249)
    );
    let one = (basis ^ u64::from(b'a')).wrapping_mul(1_099_511_628_211);
    assert_eq!(
        network("a").ipv4_address,
        format!("192.168.64.{}/24", 2 + one % 249)
    );
}

#[test]
fn sets_a_variable_and_drops_an_unset_inherited_one() {
    let declared = vec![
        EnvVar::Inherit("BRIDGE_SPEC_TEST".to_string()),
        EnvVar::Inherit("BRIDGE_SPEC_TEST_UNSET".to_string()),
        EnvVar::Assign { name: "IS_SANDBOX".to_string(), value: "1".to_string() },
    ];
    let host = vec![Some("present".to_string()), None, None];

    assert_eq!(environment(&declared, &host), ["BRIDGE_SPEC_TEST=present", "IS_SANDBOX=1"]);
}

#[test]
fn names_a_builder() {
    let name = builder_name().expect("the OS should supply randomness");
    let digits = name.strip_prefix("cb-builder-").expect("a cb-builder prefix");

    assert_eq!(digits.len(), 8);
    assert!(digits.chars().all(|digit| digit.is_ascii_hexdigit()));
}

#[test]
fn spells_a_builders_name_from_its_bytes() {
    assert_eq!(builder_name_from(&[0x01, 0x23, 0xab, 0xcd]), "cb-builder-0123abcd");
}

#[test]
fn draws_another_name_for_another_builder() {
    let drawn: Vec<String> =
        (0..8).map(|_| builder_name().expect("the OS should supply randomness")).collect();

    assert!(drawn.iter().any(|name| *name != drawn[0]), "{drawn:?}");
}

fn run_spec() -> RunSpec {
    RunSpec {
        arguments: vec!["/bin/sleep".to_string(), "infinity".to_string()],
        env: vec![EnvVar::Assign { name: "IS_SANDBOX".to_string(), value: "1".to_string() }],
        image: "compostbin/base:latest".to_string(),
        mounts: vec![Mount {
            readonly: true,
            source: PathBuf::from("/Users/user/workspace"),
            target: PathBuf::from("/workspace"),
        }],
        name: "session-one".to_string(),
        resources: Resources { cpus: 4, memory_in_bytes: 8 << 30 },
        sockets: vec![SocketRelay {
            source: PathBuf::from("/state/ports/7001.sock"),
            target: PathBuf::from("/run/session/ports/7001.sock"),
        }],
        workdir: Some(PathBuf::from("/workspace")),
    }
}

#[test]
fn boots_a_session_onto_its_own_nat_address() {
    let spec = boot(&run_spec(), &vec![None]);

    assert_eq!(spec.name, "session-one");
    assert_eq!(spec.network, network("session-one"));
    assert_eq!(spec.environment, ["IS_SANDBOX=1"]);
    assert_eq!(spec.mounts.len(), 1);
    assert!(spec.mounts[0].readonly);
    assert_eq!(spec.workdir, Some(PathBuf::from("/workspace")));
    assert_eq!(working_directory(&spec.workdir), "/workspace");
    assert_eq!(working_directory(&None), "/");
}

#[test]
fn relays_every_socket_into_the_guest() {
    let spec = boot(&run_spec(), &vec![None]);

    assert_eq!(spec.sockets[0].direction, Direction::IntoGuest);
    assert_eq!(spec.sockets[0].mode, 0o666);
}

#[test]
fn gives_a_build_the_keys_compostbin_derived() {
    let mut plan = BuildPlan::new(
        "docker.io/library/debian:stable-slim",
        "compostbin/base:latest",
        Resources { cpus: 4, memory_in_bytes: 8 << 30 },
    );
    plan.steps = vec![BuildStep::root("packages", "apt-get update")];

    let keys = keys(&plan, Vec::new()).expect("a plan with no mount should key");
    let built = build(&plan, &keys, "cb-builder-0123abcd".to_string());

    assert_eq!(built.name, "cb-builder-0123abcd");
    assert_eq!(built.base_key, keys.base);
    assert_eq!(built.steps[0].cache_key, keys.steps[0]);
    assert!(built.cache.restore);
}

#[test]
fn says_when_a_build_is_not_to_read_its_cache() {
    let mut plan = BuildPlan::new(
        "docker.io/library/debian:stable-slim",
        "compostbin/base:latest",
        Resources { cpus: 4, memory_in_bytes: 8 << 30 },
    );
    plan.cache = false;

    let keys = keys(&plan, Vec::new()).expect("a plan should key");

    assert!(!build(&plan, &keys, "cb-builder-0123abcd".to_string()).cache.restore);
}

#[test]
fn a_build_carries_its_labels_and_mounts() {
    let mut plan = with_mount("true");
    plan.labels = vec![Label { key: "built-by".to_string(), value: "compostbin".to_string() }];
    let keys = keys(&plan, vec![Listing::Unread]).expect("a key");
    let built = build(&plan, &keys, "cb-builder-0123abcd".to_string());

    assert_eq!(built.labels, plan.labels);
    assert_eq!(built.mounts, plan.mounts);
    assert_eq!(built.network, network("cb-builder-0123abcd"));
}

fn field(value: &[u8]) -> Vec<u8> {
    let mut bytes = (value.len() as u64).to_le_bytes().to_vec();
    bytes.extend_from_slice(value);
    bytes
}

#[test]
fn a_tree_is_hashed_as_its_fields_in_path_order() {
    let entries = vec![
        ("z".to_string(), Entry::Link { target: "a".to_string() }),
        ("a".to_string(), Entry::File { contents: b"one".to_vec(), executable: true }),
    ];

    let fields: [&[u8]; 6] = [b"a", b"755", b"one", b"z", b"symlink", b"a"];
    let expected: Vec<u8> = fields.iter().flat_map(|value| field(value)).collect();
    assert_eq!(hashed_tree(entries), expected);
    assert_eq!(hashed_tree(Vec::new()), Vec::<u8>::new());
}

#[test]
fn every_key_continues_the_one_before_it() {
    let plan = with_mount(&format!("cp {MOUNT}/relay /"));
    let hashed = hashed_chain(&plan, &vec!["digest".to_string()]);

    let environment = with_name("CLAUDE_CONFIG_DIR=/home/{name}/.{name}");
    let base: [&[u8]; 2] = [b"compostbin/build/1", environment.as_bytes()];
    let first: [&[u8]; 2] = [b"apt-get update", b"root"];
    let second: [&[u8]; 3] = [b"cp /mnt/scripts/relay /", b"root", b"digest"];
    let mut expected: Vec<u8> = base.iter().flat_map(|value| field(value)).collect();
    assert_eq!(hashed[0], expected);
    expected.extend(first.iter().flat_map(|value| field(value)));
    assert_eq!(hashed[1], expected);
    expected.extend(second.iter().flat_map(|value| field(value)));
    assert_eq!(hashed[2], expected);
    assert_eq!(hashed.len(), 3);
}

fn at(path: &str) -> PathBuf {
    PathBuf::from(path)
}

#[test]
fn a_walk_of_a_mount_lists_what_it_holds_by_relative_path() {
    let mut walk = Collection::new(at("/build"));

    assert_eq!(walk.next_directory(), Some(at("/build")));
    walk.see(Found::File(at("/build/relay"), 0o755, b"one".to_vec()));
    walk.see(Found::Directory(at("/build/nested")));
    walk.see(Found::Link(at("/build/link"), "relay".to_string()));

    assert_eq!(walk.next_directory(), Some(at("/build/nested")));
    walk.see(Found::File(at("/build/nested/other"), 0o644, b"other".to_vec()));

    assert_eq!(walk.next_directory(), None);
    assert_eq!(
        walk.into_listing(),
        Listing::Read(vec![
            (
                "relay".to_string(),
                Entry::File { contents: b"one".to_vec(), executable: true },
            ),
            ("link".to_string(), Entry::Link { target: "relay".to_string() }),
            (
                "nested/other".to_string(),
                Entry::File { contents: b"other".to_vec(), executable: false },
            ),
        ])
    );
}

#[test]
fn any_executable_bit_makes_a_file_executable() {
    for (mode, expected) in [(0o100, true), (0o010, true), (0o001, true), (0o666, false), (0, false)]
    {
        let mut walk = Collection::new(at("/build"));
        walk.see(Found::File(at("/build/x"), mode, Vec::new()));

        assert_eq!(
            walk.into_listing(),
            Listing::Read(vec![(
                "x".to_string(),
                Entry::File { contents: Vec::new(), executable: expected },
            )])
        );
    }
}

#[test]
fn an_entry_of_a_walk_leads_back_to_where_it_was_found() {
    let path = at("/build/a/b");
    let rest = path.strip_prefix(&at("/build")).expect("it lies below");

    assert_eq!(at("/build").join(rest.display().as_str()), path);
}

#[test]
fn a_builder_without_random_bytes_has_no_name() {
    assert_eq!(
        builder_name_drawn(Ok([0x01, 0x23, 0xab, 0xcd])),
        Ok("cb-builder-0123abcd".to_string())
    );
    assert_eq!(
        builder_name_drawn(Err(getrandom::Error::UNSUPPORTED)),
        Err(getrandom::Error::UNSUPPORTED)
    );
}

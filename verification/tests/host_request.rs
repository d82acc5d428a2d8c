use compostbin::error::Refusal;
use compostbin::host::request::{resolve, Request};
use compostbin::manifest::commands::{Commands, HostCommand};

fn words(list: &[&str]) -> Vec<String> {
    list.iter().map(|word| word.to_string()).collect()
}

fn command(argv: &[&str], arguments: bool, deny: &[&str]) -> HostCommand {
    HostCommand { arguments, argv: words(argv), deny: words(deny), tty: false }
}

fn allowlist() -> Commands {
    let mut commands = Commands::new();
    commands.insert(
        "test".to_string(),
        command(&["cargo", "nextest", "run", "--workspace"], false, &[]),
    );
    commands.insert(
        "test-one".to_string(),
        command(
            &["cargo", "nextest", "run"],
            true,
            &["--config", "--manifest-path", "-Z"],
        ),
    );
    commands
}

#[test]
fn resolves_an_allowlisted_command_to_its_manifest_argv() {
    assert_eq!(
        resolve(&allowlist(), &Request::new("test", Vec::new())).expect("should resolve"),
        ["cargo", "nextest", "run", "--workspace"]
    );
}

#[test]
fn refuses_a_command_that_is_not_on_the_allowlist() {
    assert_eq!(
        resolve(&allowlist(), &Request::new("rm", vec!["-rf".to_string()])),
        Err(Refusal::UnknownCommand("rm".to_string()))
    );
}

#[test]
fn refuses_arguments_unless_the_command_opted_in() {
    let filter = vec!["my_test".to_string()];

    assert_eq!(
        resolve(&allowlist(), &Request::new("test", filter.clone())),
        Err(Refusal::ArgumentsNotAllowed("test".to_string()))
    );
    assert_eq!(
        resolve(&allowlist(), &Request::new("test-one", filter)).expect("should resolve"),
        ["cargo", "nextest", "run", "my_test"]
    );
}

#[test]
fn refuses_arguments_that_redirect_the_command_elsewhere() {
    for argument in [
        "--config",
        "--config=target.runner='sh -c'",
        "--manifest-path",
        "-Z",
        "-Z=build-std",
        "-Zbuild-std",
    ] {
        assert_eq!(
            resolve(&allowlist(), &Request::new("test-one", vec![argument.to_string()])),
            Err(Refusal::DeniedArgument(argument.to_string())),
            "{argument} should be refused"
        );
    }
}

#[test]
fn allows_an_argument_that_only_looks_like_a_denied_one() {
    assert_eq!(
        resolve(
            &allowlist(),
            &Request::new("test-one", vec!["--configured".to_string()])
        )
        .expect("should resolve"),
        ["cargo", "nextest", "run", "--configured"]
    );
}

#[test]
fn denies_only_what_the_command_declares() {
    let mut commands = Commands::new();
    commands.insert("run".to_string(), command(&["tool"], true, &[]));

    assert_eq!(
        resolve(&commands, &Request::new("run", vec!["-Zanything".to_string()]))
            .expect("should resolve"),
        ["tool", "-Zanything"]
    );
}

#[test]
fn denying_the_separator_denies_only_the_separator() {
    let mut commands = Commands::new();
    commands.insert("run".to_string(), command(&["tool"], true, &["--"]));

    assert_eq!(
        resolve(&commands, &Request::new("run", vec!["--".to_string()])),
        Err(Refusal::DeniedArgument("--".to_string()))
    );

    assert_eq!(
        resolve(&commands, &Request::new("run", vec!["--verbose".to_string()]))
            .expect("should resolve"),
        ["tool", "--verbose"]
    );
}

#[test]
fn refuses_a_command_that_names_nothing_to_run() {
    let mut commands = Commands::new();
    commands.insert("noop".to_string(), command(&[], false, &[]));

    assert_eq!(
        resolve(&commands, &Request::new("noop", Vec::new())),
        Err(Refusal::EmptyCommand("noop".to_string()))
    );
}

#[test]
fn round_trips_a_request_through_its_wire_format() {
    let request = Request::new("test-one", words(&["-p", "compostbin-core"]));
    let rendered = request.render().expect("should render");

    assert_eq!(rendered, "test-one\n-p\ncompostbin-core\n");
    assert_eq!(Request::parse(&rendered).expect("should parse"), request);
}

#[test]
fn refuses_to_render_an_argument_containing_a_newline() {
    let argument = "one\ntwo".to_string();

    assert_eq!(
        Request::new("test-one", vec![argument.clone()]).render(),
        Err(Refusal::NewlineInArgument(argument))
    );
}

#[test]
fn refuses_a_request_that_names_no_command() {
    assert_eq!(Request::parse(""), Err(Refusal::EmptyRequest));
    assert_eq!(Request::parse("\n"), Err(Refusal::EmptyRequest));
}

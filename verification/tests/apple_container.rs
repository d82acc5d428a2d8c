use compostbin::apple_container::engine::{
    capture, container_names, passthrough, tool_version, Call, CliBuilder, CliEngine, Ran,
};
use compostbin::apple_container::error::{EngineError, Exit};
use compostbin::apple_container::model::{BuildSpec, ExecSpec, RunSpec};
use compostbin::apple_container::parse::{
    cli_version, container_gateway, first_address, gateways, names, network_gateway,
};
use compostbin::engine::model::{EnvVar, Mount};
use compostbin::paths::PathBuf;

/// The name of the assistant that sessions run, as the name of its variable has it.
fn name() -> String {
    "CLAUDE_CONFIG_DIR".split('_').next().expect("a word").to_lowercase()
}

fn words(list: &[&str]) -> Vec<String> {
    list.iter().map(|word| word.to_string()).collect()
}

fn spec() -> RunSpec {
    RunSpec {
        arguments: Vec::new(),
        cpus: None,
        detach: false,
        env: Vec::new(),
        image: "base:latest".to_string(),
        memory: None,
        mounts: Vec::new(),
        name: "cb-test".to_string(),
        workdir: None,
    }
}

fn build_spec() -> BuildSpec {
    BuildSpec { context: "/tmp/context".into(), memory: None, tag: "base:latest".to_string() }
}

/// What `/bin/echo` makes of a call.
fn echo(call: &Call) -> Ran {
    Ran::Succeeded { stdout: format!("{}\n", call.argv().join(" ")) }
}

/// What `/usr/bin/false` makes of any call.
fn fails() -> Ran {
    Ran::Failed {
        status: Exit { code: Some(1), shown: "exit status: 1".to_string() },
        stderr: String::new(),
    }
}

#[test]
fn builder_reports_a_failed_build_by_exit_code() {
    let call = Call::Build(build_spec());

    assert!(call.attached());
    assert_eq!(passthrough(call.argv(), Ok(Some(0))).expect("echo should succeed"), 0);
    assert_eq!(passthrough(call.argv(), Ok(Some(1))).expect("false should run"), 1);
}

#[test]
fn reports_a_failed_builder_start_with_argv_and_stderr() {
    let call = Call::StartBuilder(Some("8G".to_string()));
    let error = capture(call.argv(), fails()).expect_err("false should fail");

    assert_eq!(error.exit_code(), Some(1));
    assert!(
        error.to_string().contains("builder start --memory 8G"),
        "error should name the command: {error:?}"
    );
}

#[test]
fn says_nothing_is_there_when_the_program_is_missing() {
    let error = passthrough(
        Call::Build(build_spec()).argv(),
        Err("No such file or directory (os error 2)".to_string()),
    )
    .expect_err("a missing program should fail");

    assert!(
        matches!(error, EngineError::Spawn { .. }),
        "a missing CLI is not a failed build: {error:?}"
    );
    assert_eq!(error.source(), Some("No such file or directory (os error 2)".to_string()));
    assert_eq!(error.exit_code(), None);
}

#[test]
fn engine_reports_a_failed_build_by_exit_code() {
    let argv = Call::Build(build_spec()).argv();

    assert_eq!(argv, ["build", "--tag", "base:latest", "/tmp/context"]);
    assert_eq!(passthrough(argv, Ok(Some(1))).expect("false should run"), 1);
}

#[test]
fn lists_images_by_name() {
    let call = Call::Images;

    assert_eq!(
        container_names(call.argv(), echo(&call)).expect("echo should succeed"),
        ["image ls --quiet"]
    );
}

#[test]
fn engine_reads_no_version_from_unexpected_output() {
    let call = Call::Version;

    assert_eq!(tool_version(call.argv(), echo(&call)).expect("echo should succeed"), None);
}

#[test]
fn runs_and_returns_container_id() {
    let call = Call::Run(spec());

    assert_eq!(
        capture(call.argv(), echo(&call)).expect("echo should succeed"),
        "run --name cb-test base:latest"
    );
}

#[test]
fn reports_failure_with_argv_and_stderr() {
    let error = capture(Call::Run(spec()).argv(), fails()).expect_err("false should fail");

    assert_eq!(error.exit_code(), Some(1));
    assert!(
        error.to_string().contains("run --name cb-test base:latest"),
        "error should name the command: {error:?}"
    );
    assert_eq!(error.argv(), &words(&["run", "--name", "cb-test", "base:latest"]));
}

#[test]
fn a_program_that_cannot_be_started_is_reported_as_that() {
    let call = Call::Version;
    let error = tool_version(call.argv(), Ran::NotStarted("gone".to_string()))
        .expect_err("nothing was run");

    assert_eq!(error, EngineError::Spawn { argv: call.argv(), source: "gone".to_string() });
}

#[test]
fn asks_the_tool_named_container_unless_told_otherwise() {
    assert_eq!(CliEngine::new().program, PathBuf::from("container"));
    assert_eq!(CliBuilder::default().program, PathBuf::from("container"));
    assert_eq!(
        CliEngine::with_program(PathBuf::from("/opt/container")).program,
        PathBuf::from("/opt/container")
    );
}

#[test]
fn spells_the_calls_it_makes() {
    assert_eq!(Call::Stop("cb-test".to_string()).argv(), ["stop", "cb-test"]);
    assert_eq!(Call::Delete("cb-test".to_string()).argv(), ["delete", "cb-test"]);
    assert_eq!(Call::StartBuilder(None).argv(), ["builder", "start"]);
    assert_eq!(Call::RunningContainers.argv(), ["ls", "--quiet"]);
    assert_eq!(Call::Containers.argv(), ["ls", "--all", "--quiet"]);
    assert!(!Call::Version.attached());
}

#[test]
fn builds_build_argv() {
    let spec = BuildSpec {
        context: "/Users/sax/.cache/compostbin/build".into(),
        memory: Some("8G".to_string()),
        tag: "compostbin/base:latest".to_string(),
    };

    assert_eq!(
        spec.to_argv(),
        [
            "build",
            "--memory",
            "8G",
            "--tag",
            "compostbin/base:latest",
            "/Users/sax/.cache/compostbin/build",
        ]
    );
}

#[test]
fn builds_build_argv_without_a_memory_limit() {
    let spec = BuildSpec {
        context: "/tmp/context".into(),
        memory: None,
        tag: "base:latest".to_string(),
    };

    assert_eq!(spec.to_argv(), ["build", "--tag", "base:latest", "/tmp/context"]);
}

#[test]
fn builds_exec_argv() {
    let spec = ExecSpec {
        arguments: vec![name(), "--continue".to_string()],
        env: vec![EnvVar::Assign { name: "IS_SANDBOX".to_string(), value: "1".to_string() }],
        interactive: true,
        name: "compostbin-compostbin".to_string(),
        tty: true,
        workdir: Some("/Users/sax/workspace/compostbin".into()),
    };

    assert_eq!(
        spec.to_argv(),
        [
            "exec",
            "--env",
            "IS_SANDBOX=1",
            "--interactive",
            "--tty",
            "--workdir",
            "/Users/sax/workspace/compostbin",
            "compostbin-compostbin",
            name().as_str(),
            "--continue",
        ]
    );
}

#[test]
fn builds_non_interactive_exec_argv() {
    let spec = ExecSpec {
        arguments: vec!["true".to_string()],
        env: Vec::new(),
        interactive: false,
        name: "compostbin-compostbin".to_string(),
        tty: false,
        workdir: None,
    };

    assert_eq!(spec.to_argv(), ["exec", "compostbin-compostbin", "true"]);
}

#[test]
fn builds_run_argv() {
    let spec = RunSpec {
        arguments: vec![name(), "--continue".to_string()],
        cpus: Some(4),
        detach: true,
        env: vec![
            EnvVar::Inherit("ANTHROPIC_API_KEY".to_string()),
            EnvVar::Assign { name: "IS_SANDBOX".to_string(), value: "1".to_string() },
        ],
        image: "compostbin/base:latest".to_string(),
        memory: Some("8G".to_string()),
        mounts: vec![
            Mount {
                readonly: false,
                source: "/Users/sax/workspace".into(),
                target: "/Users/sax/workspace".into(),
            },
            Mount {
                readonly: true,
                source: "/Users/sax/.cargo/registry".into(),
                target: "/Users/sax/.cargo/registry".into(),
            },
        ],
        name: "compostbin-compostbin".to_string(),
        workdir: Some("/Users/sax/workspace/compostbin".into()),
    };

    assert_eq!(
        spec.to_argv(),
        [
            "run",
            "--cpus",
            "4",
            "--detach",
            "--env",
            "ANTHROPIC_API_KEY",
            "--env",
            "IS_SANDBOX=1",
            "--memory",
            "8G",
            "--name",
            "compostbin-compostbin",
            "--volume",
            "/Users/sax/workspace:/Users/sax/workspace",
            "--volume",
            "/Users/sax/.cargo/registry:/Users/sax/.cargo/registry:ro",
            "--workdir",
            "/Users/sax/workspace/compostbin",
            "compostbin/base:latest",
            name().as_str(),
            "--continue",
        ]
    );
}

#[test]
fn reads_names_one_per_line() {
    assert_eq!(
        names("debian:stable-slim\nghcr.io/apple/containerization/vminit:0.33.3\n"),
        ["debian:stable-slim", "ghcr.io/apple/containerization/vminit:0.33.3"]
    );
}

#[test]
fn reads_no_names_from_empty_output() {
    assert_eq!(names("\n  \n"), Vec::<String>::new());
}

#[test]
fn reads_the_cli_version() {
    assert_eq!(
        cli_version("container CLI version 1.3.1 (build: release, commit: unspecified)"),
        Some("1.3.1".to_string())
    );
}

#[test]
fn parse_reads_no_version_from_unexpected_output() {
    assert_eq!(cli_version("command not found"), None);
}

/// `container inspect <name>`, trimmed to what is read and one field that is
/// not, so an added field cannot break it.
const CONTAINER_INSPECT: &str = r#"[{"status":{"networks":[{"network":"default","ipv4Address":"192.168.64.3/24","ipv4Gateway":"192.168.64.1"}],"state":"running"}}]"#;

/// `container network inspect default`.
const NETWORK_INSPECT: &str =
    r#"[{"status":{"ipv4Gateway":"192.168.64.1","ipv4Subnet":"192.168.64.0/24"}}]"#;

#[test]
fn reads_the_container_gateway() {
    assert_eq!(container_gateway(CONTAINER_INSPECT), ["192.168.64.1"]);
}

#[test]
fn reads_no_gateway_without_networks() {
    assert_eq!(container_gateway(r#"[{"status":{"networks":[]}}]"#), Vec::<String>::new());
}

#[test]
fn reads_the_network_gateway() {
    assert_eq!(network_gateway(NETWORK_INSPECT), Some("192.168.64.1".to_string()));
}

#[test]
fn reads_no_gateway_from_unexpected_output() {
    assert_eq!(container_gateway("Error: not found"), Vec::<String>::new());
    assert_eq!(network_gateway("Error: not found"), None);
}

#[test]
fn reads_the_gateways_of_every_network_in_order() {
    let shown = r#"[{"status":{"networks":[{"ipv4Gateway":"10.0.0.1"},{"network":"none"},{"ipv4Gateway":"10.0.1.1"}]}}]"#;

    assert_eq!(container_gateway(shown), ["10.0.0.1", "10.0.1.1"]);
}

#[test]
fn a_network_without_a_gateway_is_passed_over() {
    assert_eq!(
        gateways(vec![None, Some("10.0.0.1".to_string()), None, Some("10.0.1.1".to_string())]),
        ["10.0.0.1", "10.0.1.1"]
    );
    assert_eq!(gateways(Vec::new()), Vec::<String>::new());
}

#[test]
fn the_first_gateway_that_is_an_address_counts() {
    let gateways = words(&["none", "10.0.0.1", "10.0.1.1"]);

    assert_eq!(
        first_address(&gateways, &vec![false, true, true]),
        Some("10.0.0.1".to_string())
    );
    assert_eq!(first_address(&gateways, &vec![false, false, false]), None);
}

use compostbin::apple_container;
use compostbin::engine::attach::{answer, attach, Route, Streams, FAILED};
use compostbin::engine::builder::Builder;
use compostbin::engine::engine::Engine;
use compostbin::engine::fake::{BuildCall, Call, RecordingBuilder, RecordingEngine};
use compostbin::engine::model::{BuildPlan, BuildStep, EnvVar, ExecSpec, Mount, Resources, RunSpec};
use compostbin::paths::PathBuf;

/// The name of the assistant that sessions run, as the name of its variable has it.
fn name() -> String {
    "CLAUDE_CONFIG_DIR".split('_').next().expect("a word").to_lowercase()
}

#[test]
fn fake_records_calls_in_order() {
    let mut engine = RecordingEngine::new();

    engine.is_running("cb-test").expect("is_running should succeed");
    engine.version().expect("version should succeed");

    assert_eq!(engine.calls(), [Call::IsRunning("cb-test".to_string()), Call::Version]);
}

#[test]
fn records_calls_in_order() {
    let mut engine = apple_container::fake::RecordingEngine::new();

    apple_container::engine::Engine::stop(&mut engine, "cb-test").expect("stop should succeed");
    apple_container::engine::Engine::delete(&mut engine, "cb-test")
        .expect("delete should succeed");

    assert_eq!(engine.calls(), [vec!["stop", "cb-test"], vec!["delete", "cb-test"]]);
}

#[test]
fn fake_records_nothing_when_unused() {
    assert!(RecordingEngine::new().calls().is_empty());
    assert!(RecordingBuilder::new().plans().is_empty());
}

#[test]
fn records_nothing_when_unused() {
    assert_eq!(
        apple_container::fake::RecordingEngine::new().calls(),
        Vec::<Vec<String>>::new()
    );
    assert_eq!(
        apple_container::fake::RecordingBuilder::new().calls(),
        Vec::<Vec<String>>::new()
    );
}

#[test]
fn keeps_the_plans_it_was_given() {
    let mut builder = RecordingBuilder::new();
    let plan = BuildPlan::new(
        "docker.io/library/debian:stable-slim",
        "compostbin/base:latest",
        Resources { cpus: 4, memory_in_bytes: 8 << 30 },
    );

    builder.provision().expect("recording should succeed");
    builder.build(&plan).expect("recording should succeed");

    assert_eq!(builder.plans(), [plan.clone()]);
    assert_eq!(builder.calls(), [BuildCall::Provision, BuildCall::Build(plan)]);
}

#[test]
fn a_recording_engine_answers_as_it_was_made() {
    let mut engine = RecordingEngine::with_running(&["cb-test"]);
    assert_eq!(engine.is_running("cb-test"), Ok(true));
    assert_eq!(engine.is_running("other"), Ok(false));

    let mut engine = RecordingEngine::with_unpacked(&["compostbin/base:latest"]);
    assert_eq!(engine.is_unpacked("compostbin/base:latest"), Ok(true));
    assert_eq!(engine.is_unpacked("other:latest"), Ok(false));

    let mut engine = RecordingEngine::with_images(&["compostbin/base:latest"]);
    assert_eq!(engine.images(), Ok(vec!["compostbin/base:latest".to_string()]));
    assert!(RecordingEngine::new().images().is_err(), "nothing was ever built");

    let mut engine = RecordingEngine::exiting_with(3);
    assert_eq!(engine.exec(&exec()), Ok(3));
}

#[test]
fn a_recording_engine_is_running_what_it_was_asked_to_run() {
    let mut engine = RecordingEngine::new();
    let spec = RunSpec {
        arguments: Vec::new(),
        env: Vec::new(),
        image: "compostbin/base:latest".to_string(),
        mounts: Vec::new(),
        name: "cb-test".to_string(),
        resources: Resources { cpus: 4, memory_in_bytes: 8 << 30 },
        sockets: Vec::new(),
        workdir: None,
    };
    assert_eq!(engine.is_running("cb-test"), Ok(false));
    assert_eq!(engine.is_unpacked("compostbin/base:latest"), Ok(false));

    engine.run(&spec).expect("recording should succeed");

    assert_eq!(engine.is_running("cb-test"), Ok(true));
    assert_eq!(engine.is_running("other"), Ok(false));
    assert_eq!(engine.is_unpacked("compostbin/base:latest"), Ok(true));
    assert_eq!(engine.calls().len(), 6);
    assert!(engine.running.is_empty(), "what was posed stays");
}

#[test]
fn names_the_user_a_step_runs_as_only_when_it_is_not_root() {
    assert_eq!(BuildStep::root("packages", "apt-get update").user, None);
    assert_eq!(
        BuildStep::as_user("bashrc", name().as_str(), "echo >> ~/.bashrc").user,
        Some(name())
    );
}

#[test]
fn reads_a_mount_as_its_two_paths_and_its_mode() {
    let mount = Mount {
        readonly: false,
        source: "/Users/user/workspace".into(),
        target: "/workspace".into(),
    };

    assert_eq!(mount.to_string(), "/Users/user/workspace:/workspace");
    assert_eq!(
        Mount { readonly: true, ..mount.clone() }.to_string(),
        "/Users/user/workspace:/workspace:ro"
    );
}

fn exec() -> ExecSpec {
    ExecSpec {
        arguments: vec![name()],
        env: vec![
            EnvVar::Inherit("TERM".to_string()),
            EnvVar::Assign { name: "IS_SANDBOX".to_string(), value: "1".to_string() },
        ],
        interactive: true,
        name: "cb-test".to_string(),
        tty: true,
        user: Some(name()),
        workdir: None,
    }
}

#[test]
fn attaches_through_a_terminal_only_where_both_streams_are_one() {
    let host = vec![Some("xterm".to_string()), None];
    let run = PathBuf::from("/run");
    let streams = |stdin: bool, stdout: bool| {
        attach(&exec(), &host, true, stdin, stdout, &run).streams
    };

    assert_eq!(streams(true, true), Streams::Terminal);
    assert_eq!(streams(true, false), Streams::Inherited { input: true });
    assert_eq!(streams(false, true), Streams::Inherited { input: true });
}

#[test]
fn a_joiner_asks_the_owner_in_the_containers_directory() {
    let host = vec![Some("xterm".to_string()), None];
    let run = PathBuf::from("/run");

    let joined = attach(&exec(), &host, false, false, false, &run);
    assert_eq!(joined.route, Route::Joiner(PathBuf::from("/run/cb-test")));
    assert_eq!(joined.request.environment, ["TERM=xterm", "IS_SANDBOX=1"]);
    assert_eq!(joined.request.working_directory, "/");
    assert_eq!(joined.request.user, Some(name()));
    assert_eq!(attach(&exec(), &host, true, false, false, &run).route, Route::Owner);
}

#[test]
fn a_failed_attach_is_answered_outside_the_exit_codes() {
    assert_eq!(answer(Ok(7)), (7, None));
    assert_eq!(answer(Err("gone".to_string())), (FAILED, Some("gone".to_string())));
}

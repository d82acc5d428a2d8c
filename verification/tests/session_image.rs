use compostbin::assistant::Assistant;
use compostbin::engine::builder::Builder;
use compostbin::engine::error::EngineError;
use compostbin::engine::fake::{BuildCall, RecordingBuilder};
use compostbin::engine::model::{BuildMount, BuildPlan, BuildStep};
use compostbin::error::{ImageError, PathError};
use compostbin::manifest::memory::Memory;
use compostbin::manifest::Manifest;
use compostbin::paths::{PathBuf, PathResolver};
use compostbin::session::image::{
    self, base_plan, build_resources, context, project_plan, provision, staged, store, BASE_IMAGE,
    BUILT_BY, CLIPBOARD_TOOLS, CONTEXT_MOUNT, GUEST_SCRIPTS,
};
use compostbin::session::Session;
use compostbin::workspace::WORKSPACE_TARGET;

/// The name of the assistant that sessions run, as the name of its variable has it.
fn name() -> String {
    "CLAUDE_CONFIG_DIR".split('_').next().expect("a word").to_lowercase()
}

/// A text with the assistant's name filled in.
fn with_name(text: &str) -> String {
    let name = name();
    let capitalized = format!("{}{}", name[..1].to_uppercase(), &name[1..]);

    text.replace("{name}", &name)
        .replace("{NAME}", &name.to_uppercase())
        .replace("{Name}", &capitalized)
}

fn words(list: &[&str]) -> Vec<String> {
    list.iter().map(|word| word.to_string()).collect()
}

fn session() -> Session {
    Session::new(
        Assistant::default(),
        Manifest::default(),
        PathResolver::new(PathBuf::from("/Users/user/project"), PathBuf::from("/Users/user")),
        PathBuf::from("/Users/user/project"),
    )
}

fn session_with(packages: &[&str], run_as_root: &[&str], run: &[&str]) -> Session {
    let mut session = session();
    session.manifest.image.packages = words(packages);
    session.manifest.image.run_as_root = words(run_as_root);
    session.manifest.image.run = words(run);
    session
}

fn built(session: &Session) -> RecordingBuilder {
    let mut builder = RecordingBuilder::new();
    provision(session, &mut builder).expect("provision should succeed");
    image::build(session, &mut builder, Ok(()), true).expect("build should succeed");
    builder
}

fn label<'a>(labels: &'a [compostbin::engine::model::Label], key: &str) -> Option<&'a str> {
    labels.iter().find(|label| label.key == key).map(|label| label.value.as_str())
}

#[test]
fn writes_every_guest_script_into_the_build_context() {
    let session = session();
    let mut builder = RecordingBuilder::new();
    let wanted = provision(&session, &mut builder).expect("provision should succeed");

    for name in GUEST_SCRIPTS {
        assert!(wanted.contains(&context(&session).join(name)), "{name}: {wanted:?}");
    }
    assert_eq!(wanted, staged(&session));
}

#[test]
fn builds_the_base_from_debian_into_the_manifests_image() {
    let session = session();
    let plan = base_plan(&session);

    assert_eq!(plan.base, BASE_IMAGE);
    assert_eq!(plan.tag, "compostbin/base:latest");
    assert_eq!(
        plan.mounts,
        vec![BuildMount {
            destination: CONTEXT_MOUNT.to_string(),
            readonly: true,
            source: context(&session),
        }]
    );
    assert_eq!(
        label(&plan.labels, BUILT_BY.0),
        Some(BUILT_BY.1),
        "the engine labels nothing on its own; this side says whose image it is"
    );
}

#[test]
fn base_image_ends_as_an_unprivileged_user_in_the_workspace() {
    let session = session();
    let plan = base_plan(&session);

    assert_eq!(plan.user, Some(name()), "a session must not run as root");
    assert_eq!(plan.workdir, Some(PathBuf::from(WORKSPACE_TARGET)));
    assert_eq!(plan.environment, [with_name("CLAUDE_CONFIG_DIR=/home/{name}/.{name}").as_str()]);
}

#[test]
fn base_image_installs_claude_code_and_the_guest_scripts() {
    let session = session();
    let plan = base_plan(&session);
    let scripts = plan.steps.iter().map(|step| step.script.clone()).collect::<String>();

    assert!(
        scripts.contains(with_name("https://{name}.ai/install.sh").as_str()),
        "the base image is useless without the assistant: {scripts}"
    );
    assert!(scripts.contains("      socat"), "the port relay needs socat: {scripts}");

    for name in GUEST_SCRIPTS {
        assert!(
            scripts.contains(&format!("{CONTEXT_MOUNT}/{name} /usr/local/bin/{name}")),
            "{name} is not installed: {scripts}"
        );
    }

    assert!(
        scripts.contains(&format!("for tool in {}", CLIPBOARD_TOOLS.join(" "))),
        "the clipboard tools are not linked: {scripts}"
    );
}

#[test]
fn every_base_step_runs_as_root() {
    for step in base_plan(&session()).steps {
        assert_eq!(step.user, None, "{} should run as root", step.name);
    }
}

#[test]
fn the_session_memory_does_not_reach_the_build() {
    let mut session = session();
    session.manifest.container.cpus = 16;
    session.manifest.container.memory = Memory::gibibytes(16);
    session.manifest.image.packages = vec!["jq".to_string()];

    for plan in built(&session).plans() {
        assert_eq!(plan.resources, build_resources(), "{plan:?}");
    }
}

#[test]
fn adds_nothing_to_the_base_image_by_default() {
    assert_eq!(project_plan(&session()), None);
}

#[test]
fn builds_a_project_image_from_manifest_additions() {
    let session = session_with(&["jq"], &[], &["echo hook >> ~/.bashrc"]);
    let plan = project_plan(&session).expect("additions should produce a plan");

    assert_eq!(
        plan.base, "compostbin/base:latest",
        "the project image extends the base rather than repeating it"
    );
    assert_eq!(plan.tag, session.image());
    assert_eq!(label(&plan.labels, BUILT_BY.0), Some(BUILT_BY.1));
    assert!(plan.steps[0].script.contains("      jq"), "{:?}", plan.steps);
    assert_eq!(
        plan.steps[1],
        BuildStep::as_user("echo hook >> ~/.bashrc", name().as_str(), "echo hook >> ~/.bashrc"),
        "a run line must execute as the user the session runs as"
    );
    assert_eq!(
        plan.workdir,
        Some(PathBuf::from(with_name("/home/{name}").as_str())),
        "the image must not be left sitting on root"
    );
    assert_eq!(plan.user, Some(name()));
}

#[test]
fn runs_root_lines_between_the_packages_and_the_user_lines() {
    let session = session_with(
        &["ca-certificates"],
        &["cp /tmp/ca.crt /usr/local/share/ca-certificates/", "update-ca-certificates"],
        &["echo hook >> ~/.bashrc"],
    );

    let steps = project_plan(&session).expect("additions should produce a plan").steps;

    assert!(steps[0].script.contains("ca-certificates"), "{steps:?}");
    assert_eq!(steps[1].user, None, "{steps:?}");
    assert_eq!(steps[2].script, "update-ca-certificates");
    assert_eq!(steps[2].user, None, "{steps:?}");
    assert_eq!(steps[3].user, Some(name()), "{steps:?}");
    assert_eq!(steps.len(), 4, "{steps:?}");
}

#[test]
fn runs_root_lines_alone() {
    let session = session_with(&[], &["install -d /opt/vendor"], &[]);

    let plan = project_plan(&session).expect("additions should produce a plan");

    assert_eq!(
        plan.steps,
        [BuildStep::root("install -d /opt/vendor", "install -d /opt/vendor")]
    );
    assert_eq!(plan.user, Some(name()), "apt left the image on root");
}

#[test]
fn builds_the_project_image_after_the_base() {
    let mut session = session();
    session.manifest.image.packages = vec!["jq".to_string()];

    let plans = built(&session).plans();
    assert_eq!(plans.len(), 2, "base, then project: {plans:?}");
    assert_eq!(plans[0].tag, "compostbin/base:latest");
    assert_eq!(plans[1].tag, session.image());
    assert_eq!(plans[1].base, plans[0].tag);
}

#[test]
fn provisions_the_store_before_the_first_build() {
    assert_eq!(built(&session()).calls().first(), Some(&BuildCall::Provision));
}

#[test]
fn builds_only_the_base_when_the_manifest_adds_nothing() {
    assert_eq!(built(&session()).plans().len(), 1, "the base only");
}

#[test]
fn builds_nothing_from_a_context_that_could_not_be_staged() {
    let mut builder = RecordingBuilder::new();
    let full = PathError::new(PathBuf::from("/full"), "no space left".to_string(), false);

    assert_eq!(
        image::build(&session(), &mut builder, Err(full), true),
        Err(ImageError::Io(PathError::new(
            PathBuf::from("/full"),
            "no space left".to_string(),
            false
        )))
    );
    assert!(builder.plans().is_empty());
}

#[test]
fn a_build_may_be_told_not_to_read_its_cache() {
    let mut builder = RecordingBuilder::new();
    let mut session = session();
    session.manifest.image.packages = vec!["jq".to_string()];
    image::build(&session, &mut builder, Ok(()), false).expect("build should succeed");

    assert!(builder.plans().iter().all(|plan| !plan.cache));
}

#[test]
fn keeps_images_and_contexts_under_the_cache() {
    assert_eq!(store(&session()), PathBuf::from("/Users/user/.cache/compostbin/images"));
    assert_eq!(
        context(&session()),
        PathBuf::from("/Users/user/.cache/compostbin/build/base")
    );
}

#[test]
fn spells_the_scripts_of_the_base_image() {
    let steps = base_plan(&session()).steps;

    assert_eq!(steps[1].name, with_name("{name} code").as_str());
    assert_eq!(
        steps[1].script,
        with_name("curl -fsSL https://{name}.ai/install.sh | bash \\\n && mv /root/.local/share/{name}/versions/* /usr/local/bin/{name}").as_str()
    );
    assert_eq!(
        steps[3].script,
        with_name("mkdir -p /etc/{name}-code \\\n && useradd --create-home --shell /bin/bash {name} \\\n && mkdir -p /home/{name}/.{name} /workspace \\\n && chown -R {name}:{name} /home/{name} /workspace").as_str()
    );
}

/// A builder whose build of one image fails.
struct Failing {
    tag: String,
    asked: Vec<String>,
}

impl Failing {
    fn new(tag: &str) -> Self {
        Failing { tag: tag.to_string(), asked: Vec::new() }
    }
}

impl Builder for Failing {
    fn build(&mut self, plan: &BuildPlan) -> Result<(), EngineError> {
        self.asked.push(plan.tag.clone());
        if plan.tag == self.tag {
            Err(EngineError::failed("build", "out of space"))
        } else {
            Ok(())
        }
    }

    fn provision(&mut self) -> Result<(), EngineError> {
        Err(EngineError::failed("provision", "no network"))
    }
}

#[test]
fn a_base_that_fails_to_build_ends_the_build() {
    let session = session_with(&["ripgrep"], &[], &[]);
    let base = session.manifest.project.image.clone();
    let mut builder = Failing::new(&base);

    assert_eq!(
        image::build(&session, &mut builder, Ok(()), true),
        Err(ImageError::Engine(EngineError::failed("build", "out of space")))
    );
    assert_eq!(builder.asked, [base], "the project's image needs the base");
}

#[test]
fn a_project_image_that_fails_to_build_fails_the_build() {
    let session = session_with(&["ripgrep"], &[], &[]);
    let mut builder = Failing::new(&session.image());

    assert_eq!(
        image::build(&session, &mut builder, Ok(()), true),
        Err(ImageError::Engine(EngineError::failed("build", "out of space")))
    );
    assert_eq!(builder.asked, [session.manifest.project.image.clone(), session.image()]);

    let mut builder = Failing::new("another");
    assert_eq!(image::build(&session, &mut builder, Ok(()), true), Ok(()));
}

#[test]
fn a_store_that_cannot_be_provisioned_fails_the_build() {
    assert_eq!(
        provision(&session(), &mut Failing::new("another")),
        Err(ImageError::Engine(EngineError::failed("provision", "no network")))
    );
}

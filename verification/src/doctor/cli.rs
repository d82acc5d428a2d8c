//! The same diagnosis, for a session whose container the `container` tool's daemon
//! keeps.
use crate::apple_container::engine::{CallView, Engine, ReplyView};
use crate::apple_container::error::EngineError;
use crate::doctor;
use crate::doctor::engine::built;
use crate::doctor::{check, engine, host, mounts, Check, CheckView, Found, Status};
use crate::error::CredentialError;
use crate::session::credentials::CredentialSource;
use crate::session::Session;
use crate::text;
use vstd::prelude::*;

verus! {

/// The version of the tool that everything here was measured against.
pub const TESTED_CLI_VERSION: &'static str = "1.3.1";

/// What is said of the tool's version.
pub open spec fn version_check(version: Result<Option<String>, EngineError>) -> CheckView {
    match version {
        Ok(Some(version)) => if version@ == "1.3.1"@ {
            doctor::plain("container CLI"@, Status::Pass, version@)
        } else {
            doctor::plain(
                "container CLI"@,
                Status::Warn,
                version@ + "; every fact in the plan was measured on 1.3.1"@,
            )
        },
        Ok(None) => doctor::plain(
            "container CLI"@,
            Status::Warn,
            "unrecognised version output"@,
        ),
        Err(error) => doctor::plain("container CLI"@, Status::Fail, error@.sentence()),
    }
}

pub fn cli_version(reply: &Result<Option<String>, EngineError>) -> (r: Check)
    ensures
        r@ == version_check(*reply),
{
    match reply {
        Ok(Some(version)) => {
            let mut detail = version.clone();
            if text::same(version.as_str(), TESTED_CLI_VERSION) {
                return check("container CLI", Status::Pass, detail);
            }
            detail.append("; every fact in the plan was measured on 1.3.1");
            check("container CLI", Status::Warn, detail)
        },
        Ok(None) => check(
            "container CLI",
            Status::Warn,
            "unrecognised version output".to_string(),
        ),
        Err(error) => check("container CLI", Status::Fail, error.to_string()),
    }
}

/// What is said of the daemon.
pub open spec fn daemon_check(images: Result<Vec<String>, EngineError>) -> CheckView {
    match images {
        Ok(_) => doctor::plain("daemon"@, Status::Pass, "responding"@),
        Err(error) => doctor::plain(
            "daemon"@,
            Status::Fail,
            error@.sentence() + "; run `container system start`"@,
        ),
    }
}

pub fn daemon(images: &Result<Vec<String>, EngineError>) -> (r: Check)
    ensures
        r@ == daemon_check(*images),
{
    match images {
        Ok(_) => check("daemon", Status::Pass, "responding".to_string()),
        Err(error) => {
            let mut detail = error.to_string();
            detail.append("; run `container system start`");
            check("daemon", Status::Fail, detail)
        },
    }
}

/// What is said of the image the manifest names.
pub open spec fn image_check(
    session: &Session,
    images: Result<Vec<String>, EngineError>,
) -> CheckView {
    let wanted = session.manifest.project.image@;
    match images {
        Err(_) => doctor::plain(
            "base image"@,
            Status::Fail,
            "cannot look for "@ + wanted + " while the daemon is unreachable"@,
        ),
        Ok(images) => engine::built_check(wanted, text::views(images@)),
    }
}

pub fn base_image(session: &Session, images: &Result<Vec<String>, EngineError>) -> (r: Check)
    ensures
        r@ == image_check(session, *images),
{
    let wanted = session.manifest.project.image.as_str();
    match images {
        Err(_) => {
            let mut detail = "cannot look for ".to_string();
            detail.append(wanted);
            detail.append(" while the daemon is unreachable");
            check("base image", Status::Fail, detail)
        },
        Ok(images) => built(wanted, images),
    }
}

/// What the engine answered.
#[derive(Debug, PartialEq)]
pub struct Answers {
    pub images: Result<Vec<String>, EngineError>,
    /// Whether the container is running, or why that cannot be told.
    pub running: Result<bool, String>,
    pub version: Result<Option<String>, EngineError>,
}

/// Whether some answers are what an engine was asked for and answered.
pub open spec fn is_answered(
    session: &Session,
    made: Seq<(CallView, ReplyView)>,
    answers: Answers,
) -> bool {
    &&& made.len() == 3
    &&& made[0] == (CallView::Images, crate::apple_container::engine::listing(answers.images))
    &&& made[1] == (CallView::Version, crate::apple_container::engine::release(answers.version))
    &&& made[2].0 == CallView::RunningContainers
    &&& made[2].1 matches ReplyView::Names(reply) && match reply {
        Ok(names) => answers.running == Ok::<bool, String>(names.contains(session.container())),
        Err(error) => answers.running is Err && answers.running->Err_0@ == error.sentence(),
    }
}

/// Asks the engine everything that a diagnosis needs of it.
pub fn ask<E: Engine>(session: &Session, engine: &mut E) -> (r: Answers)
    ensures
        final(engine).log().take(old(engine).log().len() as int) == old(engine).log(),
        is_answered(session, final(engine).log().skip(old(engine).log().len() as int), r),
{
    let ghost before = engine.log();
    let images = engine.images();
    let ghost a = engine.log().last();
    let version = engine.version();
    let ghost b = engine.log().last();
    let running = match engine.running_containers() {
        Ok(names) => Ok(text::lists(&names, session.container_name().as_str())),
        Err(error) => Err(error.to_string()),
    };
    let ghost c = engine.log().last();
    assert(engine.log().skip(before.len() as int) =~= seq![a, b, c]);
    assert(engine.log().take(before.len() as int) =~= before);
    Answers { images, running, version }
}

/// Every check, in a fixed order.
pub open spec fn diagnosis(
    session: &Session,
    answers: &Answers,
    found: &Found,
    token: Option<Result<Option<String>, CredentialError>>,
    api_key_present: bool,
) -> Seq<CheckView> {
    seq![
        version_check(answers.version),
        daemon_check(answers.images),
        image_check(session, answers.images),
        mounts::paths_check(session, found.present@),
        mounts::links_check(found.escapes),
        mounts::live_check(session, answers.running, found.record),
        mounts::breadth_check(session, text::views(found.led_to@)),
        host::token_check(session, found.seeded, token, api_key_present),
        host::commands_check(session),
    ]
}

/// Every check, in a fixed order.
pub fn diagnose<S: CredentialSource>(
    session: &Session,
    answers: &Answers,
    found: &Found,
    credentials: &mut S,
    api_key_present: bool,
) -> (r: Vec<Check>)
    requires
        found.covers(session),
    ensures
        text::views(r@) == diagnosis(
            session,
            answers,
            found,
            host::told(session, found.seeded, final(credentials).answers()),
            api_key_present,
        ),
        if host::asks_for_a_token(session, found.seeded) {
            crate::session::credentials::is_asked_once(old(credentials).answers(), final(credentials).answers())
        } else {
            *final(credentials) == *old(credentials)
        },
{
    let version = cli_version(&answers.version);
    let up = daemon(&answers.images);
    let image = base_image(session, &answers.images);
    let declared = mounts::mounted_paths(session, &found.present);
    let links = mounts::dangling_symlinks(&found.escapes);
    let live = mounts::live_mounts(session, &answers.running, &found.record);
    let breadth = mounts::root_breadth(session, &found.led_to);
    let token = host::credentials(session, credentials, found.seeded, api_key_present);
    let commands = host::allowlist(session);
    let mut checks: Vec<Check> = Vec::new();
    checks.push(version);
    checks.push(up);
    checks.push(image);
    checks.push(declared);
    checks.push(links);
    checks.push(live);
    checks.push(breadth);
    checks.push(token);
    checks.push(commands);
    assert(text::views(checks@) =~= seq![
        version@,
        up@,
        image@,
        declared@,
        links@,
        live@,
        breadth@,
        token@,
        commands@,
    ]);
    checks
}

/// The tool passes at the version that everything was measured on and warns at any
/// other; the daemon passes where it answers, and the image where it is among those
/// it has.
pub proof fn law_only_the_measured_version_passes(
    session: &Session,
    version: Result<Option<String>, EngineError>,
    images: Result<Vec<String>, EngineError>,
)
    ensures
        version_check(version).status == (match version {
            Ok(Some(version)) => if version@ == "1.3.1"@ {
                Status::Pass
            } else {
                Status::Warn
            },
            Ok(None) => Status::Warn,
            Err(_) => Status::Fail,
        }),
        version matches Ok(Some(version)) ==> version@.is_prefix_of(
            version_check(Ok(Some(version))).detail,
        ),
        daemon_check(images).status == (if images is Ok {
            Status::Pass
        } else {
            Status::Fail
        }),
        image_check(session, images).status == (if images is Ok && exists|i: int|
            0 <= i < images->Ok_0@.len() && (#[trigger] images->Ok_0@[i])@
                == session.manifest.project.image@ {
            Status::Pass
        } else {
            Status::Fail
        }),
{
    let wanted = session.manifest.project.image@;
    if let Ok(images) = images {
        let names = text::views(images@);
        if names.contains(wanted) {
            let k = choose|k: int| 0 <= k < names.len() && names[k] == wanted;
            assert(images@[k]@ == wanted);
        }
        if exists|i: int| 0 <= i < images@.len() && (#[trigger] images@[i])@ == wanted {
            let k = choose|i: int| 0 <= i < images@.len() && (#[trigger] images@[i])@ == wanted;
            assert(names[k] == wanted);
        }
    }
    if let Ok(Some(version)) = version {
        let detail = version_check(Ok(Some(version))).detail;
        assert(version@ =~= detail.subrange(0, version@.len() as int));
    }
}

/// A diagnosis of such a session makes nine checks, each of its own subject.
pub proof fn law_a_diagnosis_makes_every_check(
    session: &Session,
    answers: &Answers,
    found: &Found,
    token: Option<Result<Option<String>, CredentialError>>,
    api_key_present: bool,
)
    ensures
        ({
            let checks = diagnosis(session, answers, found, token, api_key_present);
            let names = checks.map_values(|check: CheckView| check.name);
            names == seq![
                "container CLI"@,
                "daemon"@,
                "base image"@,
                "mounted paths"@,
                "dangling symlinks"@,
                "container mounts"@,
                "mount breadth"@,
                "credentials"@,
                "host commands"@,
            ]
        }),
{
    let checks = diagnosis(session, answers, found, token, api_key_present);
    assert(checks.map_values(|check: CheckView| check.name) =~= seq![
        "container CLI"@,
        "daemon"@,
        "base image"@,
        "mounted paths"@,
        "dangling symlinks"@,
        "container mounts"@,
        "mount breadth"@,
        "credentials"@,
        "host commands"@,
    ]);
}

} // verus!

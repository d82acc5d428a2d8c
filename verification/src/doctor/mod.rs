//! What to say when something about a session is wrong.
//!
//! One submodule per subject: the engine, what is mounted, and the ways out of
//! the container. `diagnose` puts them in order. What has to be read from the
//! host is read by the caller, so that the whole diagnosis is a function of its
//! inputs.
pub mod cli;
pub mod engine;
pub mod host;
pub mod mounts;

use crate::engine::engine::{CallView, Engine, ReplyView};
use crate::engine::error::EngineError;
use crate::error::{CredentialError, ManifestError};
use crate::paths::PathBuf;
use crate::session::credentials::CredentialSource;
use crate::session::record::Record;
use crate::session::Session;
use crate::text;
use crate::workspace::Escapes;
use vstd::prelude::*;

verus! {

/// What a check came to.
#[derive(Clone, Copy, Debug, PartialEq, Eq, Structural)]
pub enum Status {
    Fail,
    Pass,
    Warn,
}

/// A check: a name, a verdict, and a sentence explaining it.
#[derive(Debug, PartialEq, Eq)]
pub struct Check {
    pub detail: String,
    /// The findings behind `detail`, when a check is about several things at once:
    /// missing paths, dead symlinks, allowlisted commands. Kept out of the
    /// sentence: a reader scans them down a column, and comma-separated they are
    /// unreadable at the width a path already takes.
    pub items: Vec<String>,
    pub name: String,
    pub status: Status,
}

/// A `Check`, its texts as sequences of characters.
#[verifier::ext_equal]
pub struct CheckView {
    pub detail: Seq<char>,
    pub items: Seq<Seq<char>>,
    pub name: Seq<char>,
    pub status: Status,
}

impl View for Check {
    type V = CheckView;

    open spec fn view(&self) -> CheckView {
        CheckView {
            detail: self.detail@,
            items: text::views(self.items@),
            name: self.name@,
            status: self.status,
        }
    }
}

/// A check that is a sentence.
pub open spec fn plain(name: Seq<char>, status: Status, detail: Seq<char>) -> CheckView {
    CheckView { detail, items: seq![], name, status }
}

/// A check whose sentence is a heading over a list.
pub open spec fn heading(
    name: Seq<char>,
    status: Status,
    detail: Seq<char>,
    items: Seq<Seq<char>>,
) -> CheckView {
    CheckView { detail, items, name, status }
}

/// A check that is a sentence.
pub fn check(name: &str, status: Status, detail: String) -> (r: Check)
    ensures
        r@ == plain(name@, status, detail@),
{
    let r = Check { detail, items: Vec::new(), name: name.to_string(), status };
    assert(r@.items =~= seq![]);
    r
}

/// A check whose sentence is a heading over a list. The items print under the
/// sentence, not inside it, so it must say what they are without naming any.
pub fn listed(name: &str, status: Status, detail: String, items: Vec<String>) -> (r: Check)
    ensures
        r@ == heading(name@, status, detail@, text::views(items@)),
{
    Check { detail, items, name: name.to_string(), status }
}

/// What the engine answered.
#[derive(Debug, PartialEq)]
pub struct Answers {
    pub images: Result<Vec<String>, EngineError>,
    /// Whether the container is running, or why that cannot be told.
    pub running: Result<bool, String>,
    pub version: Result<Option<String>, EngineError>,
}

/// Whether some answers are what an engine was asked for and answered.
pub open spec fn is_answered(
    session: &Session,
    made: Seq<(CallView, ReplyView)>,
    answers: Answers,
) -> bool {
    &&& made.len() == 3
    &&& made[0] == (CallView::Images, ReplyView::Images(crate::engine::engine::listing(answers.images)))
    &&& made[1] == (CallView::Version, ReplyView::Version(crate::engine::engine::release(answers.version)))
    &&& made[2].0 == CallView::IsRunning(session.container())
    &&& made[2].1 matches ReplyView::IsRunning(reply) && match reply {
        Ok(running) => answers.running == Ok::<bool, String>(running),
        Err(error) => answers.running is Err && answers.running->Err_0@ == error.sentence(),
    }
}

/// Asks the engine everything that a diagnosis needs of it.
pub fn ask<E: Engine>(session: &Session, engine: &mut E) -> (r: Answers)
    ensures
        final(engine).log().take(old(engine).log().len() as int) == old(engine).log(),
        is_answered(session, final(engine).log().skip(old(engine).log().len() as int), r),
{
    let ghost before = engine.log();
    let images = engine.images();
    let ghost a = engine.log().last();
    let version = engine.version();
    let ghost b = engine.log().last();
    let running = match engine.is_running(session.container_name().as_str()) {
        Ok(running) => Ok(running),
        Err(error) => Err(error.to_string()),
    };
    let ghost c = engine.log().last();
    assert(engine.log().skip(before.len() as int) =~= seq![a, b, c]);
    assert(engine.log().take(before.len() as int) =~= before);
    Answers { images, running, version }
}

/// What was found on the host.
#[derive(Debug, PartialEq)]
pub struct Found {
    /// For each declared port, whether something answers behind it.
    pub answering: Vec<bool>,
    /// The links that escape the mounted trees.
    pub escapes: Escapes,
    /// For each declared path, whether it is there.
    pub present: Vec<bool>,
    /// For each entry of the workspace, where its host path really is, links
    /// followed; the path itself where that cannot be told.
    pub led_to: Vec<PathBuf>,
    /// What the running container was recorded to be started with.
    pub record: Result<Option<Record>, ManifestError>,
    /// Whether a token was already seeded into the assistant's home.
    pub seeded: bool,
    /// Whether something accepts on the socket of every declared port.
    pub served: bool,
}

impl Found {
    /// Whether there is an answer for everything that the session declares.
    pub open spec fn covers(&self, session: &Session) -> bool {
        &&& self.answering@.len() == session.manifest.host.ports@.len()
        &&& self.present@.len() == mounts::declarations(session).len()
        &&& self.led_to@.len() == session.exposed().len()
    }
}

/// Every check, in a fixed order.
pub open spec fn diagnosis(
    session: &Session,
    answers: &Answers,
    found: &Found,
    token: Option<Result<Option<String>, CredentialError>>,
    api_key_present: bool,
) -> Seq<CheckView> {
    seq![
        engine::version_check(answers.version),
        engine::store_check(answers.images),
        engine::image_check(session, answers.images),
        mounts::paths_check(session, found.present@),
        mounts::links_check(found.escapes),
        mounts::live_check(session, answers.running, found.record),
        mounts::breadth_check(session, text::views(found.led_to@)),
        host::token_check(session, found.seeded, token, api_key_present),
        host::commands_check(session),
        host::ports_check(session, answers.running, found.served, found.answering@),
    ]
}

/// Every check, in a fixed order. `api_key_present` is passed in rather than
/// read here so the whole diagnosis is a function of its inputs. The source is
/// asked for a token only where that token would be used.
pub fn diagnose<S: CredentialSource>(
    session: &Session,
    answers: &Answers,
    found: &Found,
    credentials: &mut S,
    api_key_present: bool,
) -> (r: Vec<Check>)
    requires
        found.covers(session),
    ensures
        text::views(r@) == diagnosis(
            session,
            answers,
            found,
            host::told(session, found.seeded, final(credentials).answers()),
            api_key_present,
        ),
        if host::asks_for_a_token(session, found.seeded) {
            crate::session::credentials::is_asked_once(old(credentials).answers(), final(credentials).answers())
        } else {
            *final(credentials) == *old(credentials)
        },
{
    let version = engine::version(&answers.version);
    let store = engine::store(&answers.images);
    let image = engine::base_image(session, &answers.images);
    let declared = mounts::mounted_paths(session, &found.present);
    let links = mounts::dangling_symlinks(&found.escapes);
    let live = mounts::live_mounts(session, &answers.running, &found.record);
    let breadth = mounts::root_breadth(session, &found.led_to);
    let token = host::credentials(session, credentials, found.seeded, api_key_present);
    let commands = host::allowlist(session);
    let ports = host::ports(session, &answers.running, found.served, &found.answering);
    let mut checks: Vec<Check> = Vec::new();
    checks.push(version);
    checks.push(store);
    checks.push(image);
    checks.push(declared);
    checks.push(links);
    checks.push(live);
    checks.push(breadth);
    checks.push(token);
    checks.push(commands);
    checks.push(ports);
    assert(text::views(checks@) =~= seq![
        version@,
        store@,
        image@,
        declared@,
        links@,
        live@,
        breadth@,
        token@,
        commands@,
        ports@,
    ]);
    checks
}

/// Whether some check failed.
pub open spec fn has_failure(checks: Seq<CheckView>) -> bool {
    exists|i: int| 0 <= i < checks.len() && (#[trigger] checks[i]).status == Status::Fail
}

/// The exit code of a diagnosis: non-zero if any check failed, so scripts can gate
/// on it.
pub fn exit_code(checks: &Vec<Check>) -> (r: i32)
    ensures
        r == (if has_failure(text::views(checks@)) {
            1i32
        } else {
            0i32
        }),
{
    let ghost all = text::views(checks@);
    let mut i: usize = 0;
    while i < checks.len()
        invariant
            i <= checks@.len(),
            all == text::views(checks@),
            forall|j: int| 0 <= j < i ==> (#[trigger] all[j]).status != Status::Fail,
        decreases checks.len() - i,
    {
        assert(all[i as int] == checks@[i as int]@);
        if checks[i].status == Status::Fail {
            return 1;
        }
        i = i + 1;
    }
    0
}

/// A diagnosis makes ten checks, each of its own subject.
pub proof fn law_a_diagnosis_makes_every_check(
    session: &Session,
    answers: &Answers,
    found: &Found,
    token: Option<Result<Option<String>, CredentialError>>,
    api_key_present: bool,
)
    ensures
        ({
            let checks = diagnosis(session, answers, found, token, api_key_present);
            let names = checks.map_values(|check: CheckView| check.name);
            names == seq![
                "engine"@,
                "image store"@,
                "base image"@,
                "mounted paths"@,
                "dangling symlinks"@,
                "container mounts"@,
                "mount breadth"@,
                "credentials"@,
                "host commands"@,
                "host ports"@,
            ]
        }),
{
    let checks = diagnosis(session, answers, found, token, api_key_present);
    assert(checks.map_values(|check: CheckView| check.name) =~= seq![
        "engine"@,
        "image store"@,
        "base image"@,
        "mounted paths"@,
        "dangling symlinks"@,
        "container mounts"@,
        "mount breadth"@,
        "credentials"@,
        "host commands"@,
        "host ports"@,
    ]);
}

/// One failed check, wherever it stands, is a failure of the diagnosis; warnings are
/// not.
pub proof fn law_any_failed_check_is_a_failure(checks: Seq<CheckView>, i: int)
    requires
        0 <= i < checks.len(),
    ensures
        checks[i].status == Status::Fail ==> has_failure(checks),
        (forall|k: int|
            0 <= k < checks.len() ==> (#[trigger] checks[k]).status == Status::Pass
                || checks[k].status == Status::Warn) ==> !has_failure(checks),
{
}

/// The engine is asked for its images, its version and whether this session's own
/// container runs, and answers are what it said.
pub proof fn law_answers_are_what_the_engine_said(
    session: &Session,
    made: Seq<(CallView, ReplyView)>,
    answers: Answers,
)
    requires
        is_answered(session, made, answers),
    ensures
        made.len() == 3,
        made[0].0 == CallView::Images,
        made[1].0 == CallView::Version,
        made[2].0 == CallView::IsRunning("compostbin-"@ + session.project()),
        made[0].1 matches ReplyView::Images(Ok(names)) ==> answers.images is Ok && text::views(
            answers.images->Ok_0@,
        ) == names,
        made[0].1 matches ReplyView::Images(Err(_)) ==> answers.images is Err,
        made[1].1 matches ReplyView::Version(Err(_)) ==> answers.version is Err,
        made[2].1 matches ReplyView::IsRunning(Ok(running)) ==> answers.running == Ok::<
            bool,
            String,
        >(running),
        made[2].1 matches ReplyView::IsRunning(Err(_)) ==> answers.running is Err,
{
}

} // verus!

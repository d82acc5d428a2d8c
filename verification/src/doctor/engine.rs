//! What is running containers, and whether it holds the image a session needs.
use crate::doctor;
use crate::doctor::{check, Check, CheckView, Status};
use crate::engine::error::EngineError;
use crate::session::Session;
use crate::text;
use vstd::prelude::*;

verus! {

/// What is said of the engine's version.
pub open spec fn version_check(version: Result<Option<String>, EngineError>) -> CheckView {
    match version {
        Ok(Some(version)) => doctor::plain("engine"@, Status::Pass, version@),
        Ok(None) => doctor::plain(
            "engine"@,
            Status::Warn,
            "cannot say what version it is"@,
        ),
        Err(error) => doctor::plain("engine"@, Status::Fail, error@.sentence()),
    }
}

pub fn version(reply: &Result<Option<String>, EngineError>) -> (r: Check)
    ensures
        r@ == version_check(*reply),
{
    match reply {
        Ok(Some(version)) => check("engine", Status::Pass, version.clone()),
        Ok(None) => check("engine", Status::Warn, "cannot say what version it is".to_string()),
        Err(error) => check("engine", Status::Fail, error.to_string()),
    }
}

/// What is said of the image store.
pub open spec fn store_check(images: Result<Vec<String>, EngineError>) -> CheckView {
    match images {
        Ok(_) => doctor::plain("image store"@, Status::Pass, "readable"@),
        Err(error) => doctor::plain(
            "image store"@,
            Status::Fail,
            error@.sentence() + "; run `compostbin build`"@,
        ),
    }
}

/// Whether the image store can be read at all.
///
/// There is no daemon to be up or down: a session boots from the store on disk,
/// so the question is only whether it is there and readable. It is written by a
/// build, which is why the fix is a build.
pub fn store(images: &Result<Vec<String>, EngineError>) -> (r: Check)
    ensures
        r@ == store_check(*images),
{
    match images {
        Ok(_) => check("image store", Status::Pass, "readable".to_string()),
        Err(error) => {
            let mut detail = error.to_string();
            detail.append("; run `compostbin build`");
            check("image store", Status::Fail, detail)
        },
    }
}

/// What is said of an image among those there are.
pub open spec fn built_check(wanted: Seq<char>, images: Seq<Seq<char>>) -> CheckView {
    if images.contains(wanted) {
        doctor::plain("base image"@, Status::Pass, wanted)
    } else {
        doctor::plain(
            "base image"@,
            Status::Fail,
            wanted + " is not built; run `compostbin build`"@,
        )
    }
}

/// What is said of the image the manifest names.
pub open spec fn image_check(
    session: &Session,
    images: Result<Vec<String>, EngineError>,
) -> CheckView {
    let wanted = session.manifest.project.image@;
    match images {
        Err(_) => doctor::plain(
            "base image"@,
            Status::Fail,
            "cannot look for "@ + wanted + " while the image store is unreadable"@,
        ),
        Ok(images) => built_check(wanted, text::views(images@)),
    }
}

/// Whether an image is among those there are.
pub fn built(wanted: &str, images: &Vec<String>) -> (r: Check)
    ensures
        r@ == built_check(wanted@, text::views(images@)),
{
    if text::lists(images, wanted) {
        return check("base image", Status::Pass, wanted.to_string());
    }
    let mut detail = wanted.to_string();
    detail.append(" is not built; run `compostbin build`");
    check("base image", Status::Fail, detail)
}

pub fn base_image(session: &Session, images: &Result<Vec<String>, EngineError>) -> (r: Check)
    ensures
        r@ == image_check(session, *images),
{
    let wanted = session.manifest.project.image.as_str();
    match images {
        Err(_) => {
            let mut detail = "cannot look for ".to_string();
            detail.append(wanted);
            detail.append(" while the image store is unreadable");
            check("base image", Status::Fail, detail)
        },
        Ok(images) => built(wanted, images),
    }
}

/// The engine passes where it says its version, the store where it can be read, and
/// the image where it is among those in the store; whatever cannot be told of the
/// last two is a failure, and names the image that was wanted.
pub proof fn law_only_a_built_image_passes(
    session: &Session,
    version: Result<Option<String>, EngineError>,
    images: Result<Vec<String>, EngineError>,
)
    ensures
        version_check(version).status == (match version {
            Ok(Some(_)) => Status::Pass,
            Ok(None) => Status::Warn,
            Err(_) => Status::Fail,
        }),
        version matches Ok(Some(version)) ==> version_check(Ok(Some(version))).detail == version@,
        store_check(images).status == (if images is Ok {
            Status::Pass
        } else {
            Status::Fail
        }),
        image_check(session, images).status == (if images is Ok && exists|i: int|
            0 <= i < images->Ok_0@.len() && (#[trigger] images->Ok_0@[i])@
                == session.manifest.project.image@ {
            Status::Pass
        } else {
            Status::Fail
        }),
        text::contains_text(
            image_check(session, images).detail,
            session.manifest.project.image@,
        ),
{
    let wanted = session.manifest.project.image@;
    let detail = image_check(session, images).detail;
    match images {
        Ok(images) => {
            let names = text::views(images@);
            if names.contains(wanted) {
                let k = choose|k: int| 0 <= k < names.len() && names[k] == wanted;
                assert(images@[k]@ == wanted);
            }
            if exists|i: int| 0 <= i < images@.len() && (#[trigger] images@[i])@ == wanted {
                let k = choose|i: int| 0 <= i < images@.len() && (#[trigger] images@[i])@ == wanted;
                assert(names[k] == wanted);
            }
            assert(detail.subrange(0int, 0int + wanted.len()) =~= wanted);
        },
        Err(_) => {
            let from = "cannot look for "@.len() as int;
            assert(detail.subrange(from, from + wanted.len()) =~= wanted);
        },
    }
}

} // verus!

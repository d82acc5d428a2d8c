//! Running containers. Image building is `builder`.
use crate::engine::error::{EngineError, EngineErrorView};
use crate::engine::model::{ExecSpec, ExecSpecView, RunSpec, RunSpecView};
use crate::text;
use vstd::prelude::*;

verus! {

/// What an engine can be asked for.
pub enum CallView {
    Exec(ExecSpecView),
    Images,
    IsRunning(Seq<char>),
    IsUnpacked(Seq<char>),
    Run(RunSpecView),
    Version,
}

/// What an engine can answer.
pub enum ReplyView {
    Exec(Result<i32, EngineErrorView>),
    Images(Result<Seq<Seq<char>>, EngineErrorView>),
    IsRunning(Result<bool, EngineErrorView>),
    IsUnpacked(Result<bool, EngineErrorView>),
    Run(Result<(), EngineErrorView>),
    Version(Result<Option<Seq<char>>, EngineErrorView>),
}

/// An outcome, its error as a view.
pub open spec fn outcome<T>(result: Result<T, EngineError>) -> Result<T, EngineErrorView> {
    match result {
        Ok(value) => Ok(value),
        Err(error) => Err(error@),
    }
}

/// A list of images, or why there is none, as a view.
pub open spec fn listing(result: Result<Vec<String>, EngineError>) -> Result<
    Seq<Seq<char>>,
    EngineErrorView,
> {
    match result {
        Ok(images) => Ok(text::views(images@)),
        Err(error) => Err(error@),
    }
}

/// A version, or why there is none, as a view.
pub open spec fn release(result: Result<Option<String>, EngineError>) -> Result<
    Option<Seq<char>>,
    EngineErrorView,
> {
    match result {
        Ok(version) => Ok(text::view_of(version)),
        Err(error) => Err(error@),
    }
}

/// What runs containers. An engine keeps, as `log`, what it was asked for and
/// what it answered, in order. One that is not verified keeps none: what is proved
/// through this trait is not shown of it.
pub trait Engine {
    open spec fn log(&self) -> Seq<(CallView, ReplyView)> {
        Seq::empty()
    }

    /// Runs a command in a live container, attached to the real terminal.
    fn exec(&mut self, spec: &ExecSpec) -> (r: Result<i32, EngineError>)
        ensures
            final(self).log() == old(self).log().push(
                (CallView::Exec(spec@), ReplyView::Exec(outcome(r))),
            ),
    ;

    /// Every image available to run, as `name:tag`.
    fn images(&mut self) -> (r: Result<Vec<String>, EngineError>)
        ensures
            final(self).log() == old(self).log().push(
                (CallView::Images, ReplyView::Images(listing(r))),
            ),
    ;

    /// Starts a container named `spec.name`.
    fn run(&mut self, spec: &RunSpec) -> (r: Result<(), EngineError>)
        ensures
            final(self).log() == old(self).log().push(
                (CallView::Run(spec@), ReplyView::Run(outcome(r))),
            ),
    ;

    /// Whether this container is running, and so ready for `exec`. A stopped
    /// container doesn't exist: it dies with the process that started it.
    fn is_running(&mut self, name: &str) -> (r: Result<bool, EngineError>)
        ensures
            final(self).log() == old(self).log().push(
                (CallView::IsRunning(name@), ReplyView::IsRunning(outcome(r))),
            ),
    ;

    /// Whether `run` can skip unpacking this image. False until its first
    /// (slow) run.
    fn is_unpacked(&mut self, image: &str) -> (r: Result<bool, EngineError>)
        ensures
            final(self).log() == old(self).log().push(
                (CallView::IsUnpacked(image@), ReplyView::IsUnpacked(outcome(r))),
            ),
    ;

    /// The engine and its version. `None` when unknown, which `doctor` reports
    /// rather than treating as a failure.
    fn version(&mut self) -> (r: Result<Option<String>, EngineError>)
        ensures
            final(self).log() == old(self).log().push(
                (CallView::Version, ReplyView::Version(release(r))),
            ),
    ;
}

} // verus!

//! Building images. Separate from `Engine` because a session never builds.
use crate::engine::error::EngineError;
use crate::engine::model::{BuildPlan, BuildPlanView};
use vstd::prelude::*;

verus! {

/// What a builder can be asked for.
pub enum BuildCallView {
    Build(BuildPlanView),
    Provision,
}

/// What a builder was asked for and what came of it, in order.
pub type BuildLog = Seq<(BuildCallView, Result<(), EngineError>)>;

/// What builds images. A builder keeps, as `log`, what it was asked for and what
/// came of it, in order. One that is not verified keeps none: what is proved through
/// this trait is not shown of it.
pub trait Builder {
    open spec fn log(&self) -> BuildLog {
        Seq::empty()
    }

    /// Builds the plan's image, streaming the log. Returns once it is stored
    /// under `plan.tag`.
    fn build(&mut self, plan: &BuildPlan) -> (r: Result<(), EngineError>)
        ensures
            final(self).log() == old(self).log().push((BuildCallView::Build(plan@), r)),
    ;

    /// Fetches what a build needs beyond the plan. Idempotent and cheap.
    fn provision(&mut self) -> (r: Result<(), EngineError>)
        ensures
            final(self).log() == old(self).log().push((BuildCallView::Provision, r)),
    ;
}

} // verus!

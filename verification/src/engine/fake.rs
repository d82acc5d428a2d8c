//! An engine and a builder that record what they are asked for.
use crate::engine::builder::{BuildCallView, BuildLog, Builder};
use crate::engine::engine::{CallView, Engine, ReplyView};
use crate::engine::error::{EngineError, EngineErrorView};
use crate::engine::model::{copy_text, BuildPlan, BuildPlanView, ExecSpec, RunSpec};
use crate::text;
use vstd::prelude::*;

verus! {

/// A call that was made instead of run. Carries the spec rather than a rendering
/// of it, so a test asserts against what the caller composed.
#[derive(Debug, PartialEq)]
pub enum Call {
    Exec(ExecSpec),
    Images,
    IsRunning(String),
    IsUnpacked(String),
    Run(RunSpec),
    Version,
}

impl View for Call {
    type V = CallView;

    open spec fn view(&self) -> CallView {
        match self {
            Call::Exec(spec) => CallView::Exec(spec@),
            Call::Images => CallView::Images,
            Call::IsRunning(name) => CallView::IsRunning(name@),
            Call::IsUnpacked(image) => CallView::IsUnpacked(image@),
            Call::Run(spec) => CallView::Run(spec@),
            Call::Version => CallView::Version,
        }
    }
}

impl Clone for Call {
    fn clone(&self) -> (r: Self)
        ensures
            r@ == self@,
    {
        match self {
            Call::Exec(spec) => Call::Exec(spec.clone()),
            Call::Images => Call::Images,
            Call::IsRunning(name) => Call::IsRunning(name.clone()),
            Call::IsUnpacked(image) => Call::IsUnpacked(image.clone()),
            Call::Run(spec) => Call::Run(spec.clone()),
            Call::Version => Call::Version,
        }
    }
}

/// Every call that was made, in order, so callers can assert what was asked of
/// the engine and that nothing else was.
#[derive(Debug, PartialEq)]
pub struct Calls {
    pub recorded: Vec<Call>,
}

impl Default for Calls {
    fn default() -> (r: Self)
        ensures
            r.recorded@.len() == 0,
    {
        Calls { recorded: Vec::new() }
    }
}

impl Calls {
    /// Every recorded call, in order.
    pub fn all(&self) -> (r: Vec<Call>)
        ensures
            text::views(r@) == text::views(self.recorded@),
    {
        let mut out: Vec<Call> = Vec::new();
        let mut i: usize = 0;
        while i < self.recorded.len()
            invariant
                i <= self.recorded@.len(),
                out@.len() == i,
                forall|j: int| 0 <= j < i ==> (#[trigger] out@[j])@ == self.recorded@[j]@,
            decreases self.recorded.len() - i,
        {
            out.push(self.recorded[i].clone());
            i = i + 1;
        }
        assert(text::views(out@) =~= text::views(self.recorded@));
        out
    }

    fn record(&mut self, call: Call)
        ensures
            text::views(final(self).recorded@) == text::views(old(self).recorded@).push(call@),
    {
        proof {
            text::lemma_views_push(self.recorded@, call);
        }
        self.recorded.push(call);
    }
}

fn owned(names: &[&str]) -> (r: Vec<String>)
    ensures
        text::views(r@) == text::views(names@),
{
    let mut out: Vec<String> = Vec::new();
    let mut i: usize = 0;
    while i < names.len()
        invariant
            i <= names@.len(),
            out@.len() == i,
            forall|j: int| 0 <= j < i ==> (#[trigger] out@[j])@ == names@[j]@,
        decreases names.len() - i,
    {
        out.push(names[i].to_string());
        i = i + 1;
    }
    assert(text::views(out@) =~= text::views(names@));
    out
}

/// Whether a container of that name was run among some calls.
pub open spec fn was_run(calls: Seq<CallView>, name: Seq<char>) -> bool {
    exists|i: int|
        0 <= i < calls.len() && ((#[trigger] calls[i]) matches CallView::Run(spec) && spec.name
            == name)
}

/// Whether that image was unpacked by running it, among some calls.
pub open spec fn was_unpacked(calls: Seq<CallView>, image: Seq<char>) -> bool {
    exists|i: int|
        0 <= i < calls.len() && ((#[trigger] calls[i]) matches CallView::Run(spec) && spec.image
            == image)
}

/// An `Engine` that runs nothing.
#[derive(Debug, PartialEq)]
pub struct RecordingEngine {
    pub calls: Calls,
    /// What every `exec` exits with.
    pub exit_code: i32,
    /// `None` poses an engine that cannot say what images exist.
    pub images: Option<Vec<String>>,
    /// The containers the posed engine is running. Every one that `run` has
    /// started since is running too.
    pub running: Vec<String>,
    /// The images the posed engine has unpacked. Every one that `run` has
    /// unpacked since is unpacked too.
    pub unpacked: Vec<String>,
    pub version: Option<String>,
}

/// What an engine poses: everything of it but its calls.
pub struct Posed {
    pub exit_code: i32,
    pub images: Option<Seq<Seq<char>>>,
    pub running: Seq<Seq<char>>,
    pub unpacked: Seq<Seq<char>>,
    pub version: Option<Seq<char>>,
}

impl Posed {
    /// An engine that holds and runs nothing.
    pub open spec fn nothing() -> Posed {
        Posed { exit_code: 0, images: None, running: seq![], unpacked: seq![], version: None }
    }

    /// What the posed engine answers to a call, after some others.
    pub open spec fn answer(self, before: Seq<CallView>, call: CallView) -> ReplyView {
        match call {
            CallView::Exec(_) => ReplyView::Exec(Ok(self.exit_code)),
            CallView::Images => ReplyView::Images(
                match self.images {
                    Some(images) => Ok(images),
                    None => Err(
                        EngineErrorView::Unavailable {
                            action: "read the image store"@,
                            message: "there is none"@,
                        },
                    ),
                },
            ),
            CallView::IsRunning(name) => ReplyView::IsRunning(
                Ok(self.running.contains(name) || was_run(before, name)),
            ),
            CallView::IsUnpacked(image) => ReplyView::IsUnpacked(
                Ok(self.unpacked.contains(image) || was_unpacked(before, image)),
            ),
            CallView::Run(_) => ReplyView::Run(Ok(())),
            CallView::Version => ReplyView::Version(Ok(self.version)),
        }
    }

    /// Calls, with what the posed engine answered to each.
    pub open spec fn answered(self, calls: Seq<CallView>) -> Seq<(CallView, ReplyView)> {
        Seq::new(calls.len(), |i: int| (calls[i], self.answer(calls.take(i), calls[i])))
    }
}

impl Default for RecordingEngine {
    fn default() -> (r: Self)
        ensures
            r.history() == Seq::<CallView>::empty(),
            r.posed() == Posed::nothing(),
    {
        let r = RecordingEngine {
            calls: Calls::default(),
            exit_code: 0,
            images: None,
            running: Vec::new(),
            unpacked: Vec::new(),
            version: None,
        };
        assert(r.history() =~= seq![]);
        assert(r.posed().running =~= seq![]);
        assert(r.posed().unpacked =~= seq![]);
        r
    }
}

impl RecordingEngine {
    /// What it was asked for, in order.
    pub open spec fn history(&self) -> Seq<CallView> {
        text::views(self.calls.recorded@)
    }

    /// What it poses.
    pub open spec fn posed(&self) -> Posed {
        Posed {
            exit_code: self.exit_code,
            images: match self.images {
                Some(images) => Some(text::views(images@)),
                None => None,
            },
            running: text::views(self.running@),
            unpacked: text::views(self.unpacked@),
            version: text::view_of(self.version),
        }
    }

    pub fn new() -> (r: Self)
        ensures
            r.history() == Seq::<CallView>::empty(),
            r.posed() == Posed::nothing(),
    {
        RecordingEngine::default()
    }

    /// Poses an engine running exactly these containers.
    pub fn with_running(containers: &[&str]) -> (r: Self)
        ensures
            r.history() == Seq::<CallView>::empty(),
            r.posed() == (Posed { running: text::views(containers@), ..Posed::nothing() }),
    {
        let mut engine = RecordingEngine::default();
        engine.running = owned(containers);
        engine
    }

    /// Poses an engine that has already unpacked these images.
    pub fn with_unpacked(images: &[&str]) -> (r: Self)
        ensures
            r.history() == Seq::<CallView>::empty(),
            r.posed() == (Posed { unpacked: text::views(images@), ..Posed::nothing() }),
    {
        let mut engine = RecordingEngine::default();
        engine.unpacked = owned(images);
        engine
    }

    /// Poses an engine holding exactly these images.
    pub fn with_images(images: &[&str]) -> (r: Self)
        ensures
            r.history() == Seq::<CallView>::empty(),
            r.posed() == (Posed {
                images: Some(text::views(images@)),
                version: Some("Containerization 0.45.0"@),
                ..Posed::nothing()
            }),
    {
        let mut engine = RecordingEngine::default();
        engine.images = Some(owned(images));
        engine.version = Some("Containerization 0.45.0".to_string());
        engine
    }

    /// Poses an engine whose every `exec` exits with this code.
    pub fn exiting_with(code: i32) -> (r: Self)
        ensures
            r.history() == Seq::<CallView>::empty(),
            r.posed() == (Posed { exit_code: code, ..Posed::nothing() }),
    {
        let mut engine = RecordingEngine::default();
        engine.exit_code = code;
        engine
    }

    pub fn calls(&self) -> (r: Vec<Call>)
        ensures
            text::views(r@) == self.history(),
    {
        self.calls.all()
    }

    fn record(&mut self, call: Call)
        ensures
            final(self).posed() == old(self).posed(),
            final(self).images == old(self).images,
            final(self).version == old(self).version,
            final(self).history() == old(self).history().push(call@),
            final(self).log() == old(self).log().push(
                (call@, old(self).posed().answer(old(self).history(), call@)),
            ),
    {
        let ghost before = self.history();
        let ghost logged = self.log();
        self.calls.record(call);
        let ghost after = self.history();
        assert(after == before.push(call@));
        assert forall|i: int| 0 <= i < before.len() implies #[trigger] after.take(i)
            == before.take(i) by {
            assert(after.take(i) =~= before.take(i));
        }
        assert(after.take(before.len() as int) =~= before);
        assert(self.log() =~= logged.push((call@, self.posed().answer(before, call@))));
    }

    fn has_run(&self, name: &str) -> (r: bool)
        ensures
            r == was_run(self.history(), name@),
    {
        let ghost all = self.history();
        let mut i: usize = 0;
        while i < self.calls.recorded.len()
            invariant
                i <= self.calls.recorded@.len(),
                all == text::views(self.calls.recorded@),
                forall|j: int|
                    0 <= j < i ==> !((#[trigger] all[j]) matches CallView::Run(spec) && spec.name
                        == name@),
            decreases self.calls.recorded.len() - i,
        {
            assert(all[i as int] == self.calls.recorded@[i as int]@);
            if let Call::Run(spec) = &self.calls.recorded[i] {
                if text::same(spec.name.as_str(), name) {
                    return true;
                }
            }
            i = i + 1;
        }
        false
    }

    fn has_unpacked(&self, image: &str) -> (r: bool)
        ensures
            r == was_unpacked(self.history(), image@),
    {
        let ghost all = self.history();
        let mut i: usize = 0;
        while i < self.calls.recorded.len()
            invariant
                i <= self.calls.recorded@.len(),
                all == text::views(self.calls.recorded@),
                forall|j: int|
                    0 <= j < i ==> !((#[trigger] all[j]) matches CallView::Run(spec) && spec.image
                        == image@),
            decreases self.calls.recorded.len() - i,
        {
            assert(all[i as int] == self.calls.recorded@[i as int]@);
            if let Call::Run(spec) = &self.calls.recorded[i] {
                if text::same(spec.image.as_str(), image) {
                    return true;
                }
            }
            i = i + 1;
        }
        false
    }
}

impl Engine for RecordingEngine {
    open spec fn log(&self) -> Seq<(CallView, ReplyView)> {
        self.posed().answered(self.history())
    }

    fn exec(&mut self, spec: &ExecSpec) -> (r: Result<i32, EngineError>)
        ensures
            r == Ok::<i32, EngineError>(old(self).exit_code),
            final(self).posed() == old(self).posed(),
            final(self).history() == old(self).history().push(CallView::Exec(spec@)),
    {
        self.record(Call::Exec(spec.clone()));
        Ok(self.exit_code)
    }

    fn images(&mut self) -> (r: Result<Vec<String>, EngineError>)
        ensures
            r is Ok <==> old(self).images is Some,
            r is Ok ==> r->Ok_0@ == old(self).images->0@,
            final(self).posed() == old(self).posed(),
            final(self).history() == old(self).history().push(CallView::Images),
    {
        self.record(Call::Images);
        match &self.images {
            Some(images) => {
                let copy = images.clone();
                assert(copy@ =~= images@);
                Ok(copy)
            },
            None => Err(EngineError::unavailable("read the image store", "there is none")),
        }
    }

    fn run(&mut self, spec: &RunSpec) -> (r: Result<(), EngineError>)
        ensures
            r is Ok,
            final(self).posed() == old(self).posed(),
            final(self).history() == old(self).history().push(CallView::Run(spec@)),
    {
        self.record(Call::Run(spec.clone()));
        Ok(())
    }

    fn is_running(&mut self, name: &str) -> (r: Result<bool, EngineError>)
        ensures
            r == Ok::<bool, EngineError>(
                old(self).posed().running.contains(name@) || was_run(old(self).history(), name@),
            ),
            final(self).posed() == old(self).posed(),
            final(self).history() == old(self).history().push(CallView::IsRunning(name@)),
    {
        let running = text::lists(&self.running, name) || self.has_run(name);
        self.record(Call::IsRunning(name.to_string()));
        Ok(running)
    }

    fn is_unpacked(&mut self, image: &str) -> (r: Result<bool, EngineError>)
        ensures
            r == Ok::<bool, EngineError>(
                old(self).posed().unpacked.contains(image@) || was_unpacked(
                    old(self).history(),
                    image@,
                ),
            ),
            final(self).posed() == old(self).posed(),
            final(self).history() == old(self).history().push(CallView::IsUnpacked(image@)),
    {
        let unpacked = text::lists(&self.unpacked, image) || self.has_unpacked(image);
        self.record(Call::IsUnpacked(image.to_string()));
        Ok(unpacked)
    }

    fn version(&mut self) -> (r: Result<Option<String>, EngineError>)
        ensures
            r == Ok::<Option<String>, EngineError>(old(self).version),
            final(self).posed() == old(self).posed(),
            final(self).history() == old(self).history().push(CallView::Version),
    {
        self.record(Call::Version);
        Ok(copy_text(&self.version))
    }
}

/// What a builder was asked for.
#[derive(Debug, PartialEq)]
pub enum BuildCall {
    Build(BuildPlan),
    Provision,
}

impl View for BuildCall {
    type V = BuildCallView;

    open spec fn view(&self) -> BuildCallView {
        match self {
            BuildCall::Build(plan) => BuildCallView::Build(plan@),
            BuildCall::Provision => BuildCallView::Provision,
        }
    }
}

impl Clone for BuildCall {
    fn clone(&self) -> (r: Self)
        ensures
            r@ == self@,
    {
        match self {
            BuildCall::Build(plan) => BuildCall::Build(plan.clone()),
            BuildCall::Provision => BuildCall::Provision,
        }
    }
}

/// A `Builder` that builds nothing and keeps what it was asked for.
#[derive(Debug, PartialEq)]
pub struct RecordingBuilder {
    pub recorded: Vec<BuildCall>,
}

impl Default for RecordingBuilder {
    fn default() -> (r: Self)
        ensures
            r.history() == Seq::<BuildCallView>::empty(),
    {
        let r = RecordingBuilder { recorded: Vec::new() };
        assert(r.history() =~= seq![]);
        r
    }
}

/// The plans among calls, in order.
pub open spec fn plans_of(calls: Seq<BuildCallView>) -> Seq<BuildPlanView>
    decreases calls.len(),
{
    if calls.len() == 0 {
        seq![]
    } else {
        let rest = plans_of(calls.drop_last());
        match calls.last() {
            BuildCallView::Build(plan) => rest.push(plan),
            BuildCallView::Provision => rest,
        }
    }
}

impl RecordingBuilder {
    /// What it was asked for, in order.
    pub open spec fn history(&self) -> Seq<BuildCallView> {
        text::views(self.recorded@)
    }

    pub fn new() -> (r: Self)
        ensures
            r.history() == Seq::<BuildCallView>::empty(),
    {
        RecordingBuilder::default()
    }

    /// Everything it was asked for, in call order.
    pub fn calls(&self) -> (r: Vec<BuildCall>)
        ensures
            text::views(r@) == self.history(),
    {
        let mut out: Vec<BuildCall> = Vec::new();
        let mut i: usize = 0;
        while i < self.recorded.len()
            invariant
                i <= self.recorded@.len(),
                out@.len() == i,
                forall|j: int| 0 <= j < i ==> (#[trigger] out@[j])@ == self.recorded@[j]@,
            decreases self.recorded.len() - i,
        {
            out.push(self.recorded[i].clone());
            i = i + 1;
        }
        assert(text::views(out@) =~= text::views(self.recorded@));
        out
    }

    /// Every plan it was asked to build, in call order.
    pub fn plans(&self) -> (r: Vec<BuildPlan>)
        ensures
            text::views(r@) == plans_of(self.history()),
    {
        let ghost all = self.history();
        let mut out: Vec<BuildPlan> = Vec::new();
        let mut i: usize = 0;
        assert(text::views(out@) =~= plans_of(all.take(0)));
        while i < self.recorded.len()
            invariant
                i <= self.recorded@.len(),
                all == text::views(self.recorded@),
                text::views(out@) == plans_of(all.take(i as int)),
            decreases self.recorded.len() - i,
        {
            assert(all.take(i + 1).drop_last() =~= all.take(i as int));
            assert(all.take(i + 1).last() == self.recorded@[i as int]@);
            match &self.recorded[i] {
                BuildCall::Build(plan) => {
                    let copy = plan.clone();
                    proof {
                        text::lemma_views_push(out@, copy);
                    }
                    out.push(copy);
                },
                BuildCall::Provision => {},
            }
            i = i + 1;
        }
        assert(all.take(i as int) =~= all);
        out
    }
}

impl Builder for RecordingBuilder {
    open spec fn log(&self) -> BuildLog {
        self.history().map_values(|call: BuildCallView| (call, Ok::<(), EngineError>(())))
    }

    fn build(&mut self, plan: &BuildPlan) -> (r: Result<(), EngineError>)
        ensures
            r is Ok,
            final(self).history() == old(self).history().push(BuildCallView::Build(plan@)),
    {
        let ghost before = self.log();
        let call = BuildCall::Build(plan.clone());
        proof {
            text::lemma_views_push(self.recorded@, call);
        }
        self.recorded.push(call);
        assert(self.log() =~= before.push((call@, Ok::<(), EngineError>(()))));
        Ok(())
    }

    fn provision(&mut self) -> (r: Result<(), EngineError>)
        ensures
            r is Ok,
            final(self).history() == old(self).history().push(BuildCallView::Provision),
    {
        let ghost before = self.log();
        let call = BuildCall::Provision;
        proof {
            text::lemma_views_push(self.recorded@, call);
        }
        self.recorded.push(call);
        assert(self.log() =~= before.push((call@, Ok::<(), EngineError>(()))));
        Ok(())
    }
}

/// A posed engine runs what it was posed with and whatever it has since been told to
/// run, and nothing else; so it is with the images it has unpacked.
pub proof fn law_a_posed_engine_keeps_what_it_was_told(
    posed: Posed,
    before: Seq<CallView>,
    name: Seq<char>,
)
    ensures
        posed.answer(before, CallView::IsRunning(name)) == ReplyView::IsRunning(
            Ok(
                posed.running.contains(name) || exists|i: int|
                    0 <= i < before.len() && (#[trigger] before[i]) is Run && before[i]->Run_0.name
                        == name,
            ),
        ),
        posed.answer(before, CallView::IsUnpacked(name)) == ReplyView::IsUnpacked(
            Ok(
                posed.unpacked.contains(name) || exists|i: int|
                    0 <= i < before.len() && (#[trigger] before[i]) is Run && before[i]->Run_0.image
                        == name,
            ),
        ),
        posed.images matches Some(images) ==> posed.answer(before, CallView::Images)
            == ReplyView::Images(Ok(images)),
        posed.answer(before, CallView::Version) == ReplyView::Version(Ok(posed.version)),
{
    if was_run(before, name) {
        let i = choose|i: int|
            0 <= i < before.len() && ((#[trigger] before[i]) matches CallView::Run(spec)
                && spec.name == name);
        assert(before[i] is Run);
    }
    if was_unpacked(before, name) {
        let i = choose|i: int|
            0 <= i < before.len() && ((#[trigger] before[i]) matches CallView::Run(spec)
                && spec.image == name);
        assert(before[i] is Run);
    }
}

/// Every plan that was built is among the plans, in order, and nothing else is.
pub proof fn law_every_plan_that_was_built_is_kept(calls: Seq<BuildCallView>, plan: BuildPlanView)
    ensures
        plans_of(calls.push(BuildCallView::Build(plan))) == plans_of(calls).push(plan),
        plans_of(calls.push(BuildCallView::Provision)) == plans_of(calls),
        plans_of(seq![]).len() == 0,
{
    assert(calls.push(BuildCallView::Build(plan)).drop_last() =~= calls);
    assert(calls.push(BuildCallView::Provision).drop_last() =~= calls);
}

} // verus!

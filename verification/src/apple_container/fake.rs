//! An engine and a builder that record what they would have invoked.
use crate::apple_container::engine::{Builder, Call, CallView, Engine, ReplyView};
use crate::apple_container::error::{EngineError, EngineErrorView};
use crate::apple_container::model::{BuildSpec, ExecSpec, RunSpec};
use crate::engine::model::copy_text;
use crate::text;
use vstd::prelude::*;

verus! {

/// Records every call instead of running anything, so callers can assert what was
/// invoked and that nothing else was.
#[derive(Debug, PartialEq)]
pub struct Calls {
    pub recorded: Vec<Call>,
}

impl Default for Calls {
    fn default() -> (r: Self)
        ensures
            r.recorded@.len() == 0,
    {
        Calls { recorded: Vec::new() }
    }
}

impl Calls {
    /// Every recorded argv, in call order.
    pub fn all(&self) -> (r: Vec<Vec<String>>)
        ensures
            r@.len() == self.recorded@.len(),
            forall|i: int|
                0 <= i < r@.len() ==> text::views((#[trigger] r@[i])@) == self.recorded@[i]@.argv(),
    {
        let mut out: Vec<Vec<String>> = Vec::new();
        let mut i: usize = 0;
        while i < self.recorded.len()
            invariant
                i <= self.recorded@.len(),
                out@.len() == i,
                forall|j: int|
                    0 <= j < i ==> text::views((#[trigger] out@[j])@) == self.recorded@[j]@.argv(),
            decreases self.recorded.len() - i,
        {
            out.push(self.recorded[i].argv());
            i = i + 1;
        }
        out
    }

    fn record(&mut self, call: Call)
        ensures
            text::views(final(self).recorded@) == text::views(old(self).recorded@).push(call@),
    {
        proof {
            text::lemma_views_push(self.recorded@, call);
        }
        self.recorded.push(call);
    }
}

/// A container the posed engine holds, and whether it is running.
#[derive(Debug, PartialEq, Eq)]
pub struct Container {
    pub name: String,
    pub running: bool,
}

/// The names of containers; only of those that are running, where asked.
pub open spec fn names_of(containers: Seq<Container>, running: bool) -> Seq<Seq<char>>
    decreases containers.len(),
{
    if containers.len() == 0 {
        seq![]
    } else {
        let rest = names_of(containers.drop_last(), running);
        if running && !containers.last().running {
            rest
        } else {
            rest.push(containers.last().name@)
        }
    }
}

/// An `Engine` that runs nothing.
#[derive(Debug, PartialEq)]
pub struct RecordingEngine {
    pub calls: Calls,
    /// Every container the posed engine holds.
    pub containers: Vec<Container>,
    /// `None` poses an engine that cannot say what images exist.
    pub images: Option<Vec<String>>,
    pub version: Option<String>,
}

impl Default for RecordingEngine {
    fn default() -> (r: Self)
        ensures
            r.calls.recorded@.len() == 0,
            r.containers@.len() == 0,
            r.images is None,
            r.version is None,
    {
        RecordingEngine {
            calls: Calls::default(),
            containers: Vec::new(),
            images: None,
            version: None,
        }
    }
}

impl RecordingEngine {
    pub fn new() -> (r: Self)
        ensures
            r.calls.recorded@.len() == 0,
            r.containers@.len() == 0,
            r.images is None,
            r.version is None,
    {
        RecordingEngine::default()
    }

    /// Poses an engine holding exactly these containers, each paired with whether
    /// it is running.
    pub fn with_containers(containers: &[(&str, bool)]) -> (r: Self)
        ensures
            r.calls.recorded@.len() == 0,
            r.containers@.len() == containers@.len(),
            forall|i: int|
                0 <= i < r.containers@.len() ==> (#[trigger] r.containers@[i]).name@
                    == containers@[i].0@ && r.containers@[i].running == containers@[i].1,
            r.images is None,
            r.version is None,
    {
        let mut engine = RecordingEngine::default();
        let mut i: usize = 0;
        while i < containers.len()
            invariant
                i <= containers@.len(),
                engine.calls.recorded@.len() == 0,
                engine.images is None,
                engine.version is None,
                engine.containers@.len() == i,
                forall|j: int|
                    0 <= j < i ==> (#[trigger] engine.containers@[j]).name@ == containers@[j].0@
                        && engine.containers@[j].running == containers@[j].1,
            decreases containers.len() - i,
        {
            let name = containers[i].0.to_string();
            engine.containers.push(Container { name, running: containers[i].1 });
            i = i + 1;
        }
        engine
    }

    /// Poses an engine holding exactly these images.
    pub fn with_images(images: &[&str]) -> (r: Self)
        ensures
            r.calls.recorded@.len() == 0,
            r.containers@.len() == 0,
            r.images is Some,
            r.images->0@.len() == images@.len(),
            forall|i: int| 0 <= i < images@.len() ==> (#[trigger] r.images->0@[i])@ == images@[i]@,
            r.version matches Some(version) && version@ == "1.3.1"@,
    {
        let mut engine = RecordingEngine::default();
        let mut names: Vec<String> = Vec::new();
        let mut i: usize = 0;
        while i < images.len()
            invariant
                i <= images@.len(),
                names@.len() == i,
                forall|j: int| 0 <= j < i ==> (#[trigger] names@[j])@ == images@[j]@,
            decreases images.len() - i,
        {
            names.push(images[i].to_string());
            i = i + 1;
        }
        engine.images = Some(names);
        engine.version = Some("1.3.1".to_string());
        engine
    }

    /// Every recorded argv, in call order.
    pub fn calls(&self) -> (r: Vec<Vec<String>>)
        ensures
            r@.len() == self.calls.recorded@.len(),
            forall|i: int|
                0 <= i < r@.len() ==> text::views((#[trigger] r@[i])@)
                    == self.calls.recorded@[i]@.argv(),
    {
        self.calls.all()
    }

    /// What the posed engine answers to a call.
    pub open spec fn answer(&self, call: CallView) -> ReplyView {
        match call {
            CallView::Build(_) => ReplyView::Code(Ok(0)),
            CallView::Containers => ReplyView::Names(Ok(names_of(self.containers@, false))),
            CallView::Delete(_) => ReplyView::Done(Ok(())),
            CallView::Exec(_) => ReplyView::Code(Ok(0)),
            CallView::Images => ReplyView::Names(
                match self.images {
                    Some(images) => Ok(text::views(images@)),
                    None => Err(
                        EngineErrorView::Spawn {
                            argv: CallView::Images.argv(),
                            source: "no image store"@,
                        },
                    ),
                },
            ),
            CallView::Run(spec) => ReplyView::Id(Ok(spec.name)),
            CallView::RunningContainers => ReplyView::Names(Ok(names_of(self.containers@, true))),
            CallView::StartBuilder(_) => ReplyView::Done(Ok(())),
            CallView::Stop(_) => ReplyView::Done(Ok(())),
            CallView::Version => ReplyView::Version(Ok(text::view_of(self.version))),
        }
    }

    fn record(&mut self, call: Call)
        ensures
            final(self).containers == old(self).containers,
            final(self).images == old(self).images,
            final(self).version == old(self).version,
            final(self).log() == old(self).log().push((call@, old(self).answer(call@))),
    {
        let ghost before = *self;
        self.calls.record(call);
        assert(text::views(self.calls.recorded@) == text::views(before.calls.recorded@).push(
            call@,
        ));
        assert(self.log() =~= before.log().push((call@, before.answer(call@))));
    }

    fn names(&self, running: bool) -> (r: Vec<String>)
        ensures
            text::views(r@) == names_of(self.containers@, running),
    {
        let mut out: Vec<String> = Vec::new();
        let mut i: usize = 0;
        assert(text::views(out@) =~= names_of(self.containers@.take(0), running));
        while i < self.containers.len()
            invariant
                i <= self.containers@.len(),
                text::views(out@) == names_of(self.containers@.take(i as int), running),
            decreases self.containers.len() - i,
        {
            assert(self.containers@.take(i + 1).drop_last() =~= self.containers@.take(i as int));
            assert(self.containers@.take(i + 1).last() == self.containers@[i as int]);
            if !running || self.containers[i].running {
                let name = self.containers[i].name.clone();
                proof {
                    text::lemma_views_push(out@, name);
                }
                out.push(name);
            }
            i = i + 1;
        }
        assert(self.containers@.take(i as int) =~= self.containers@);
        out
    }
}

impl Engine for RecordingEngine {
    open spec fn log(&self) -> Seq<(CallView, ReplyView)> {
        text::views(self.calls.recorded@).map_values(|call: CallView| (call, self.answer(call)))
    }

    fn containers(&mut self) -> (r: Result<Vec<String>, EngineError>)
        ensures
            final(self).containers == old(self).containers,
            final(self).images == old(self).images,
            final(self).version == old(self).version,
    {
        self.record(Call::Containers);
        Ok(self.names(false))
    }

    fn delete(&mut self, name: &str) -> (r: Result<(), EngineError>)
        ensures
            final(self).containers == old(self).containers,
            final(self).images == old(self).images,
            final(self).version == old(self).version,
    {
        self.record(Call::Delete(name.to_string()));
        Ok(())
    }

    fn exec(&mut self, spec: &ExecSpec) -> (r: Result<i32, EngineError>)
        ensures
            final(self).containers == old(self).containers,
            final(self).images == old(self).images,
            final(self).version == old(self).version,
    {
        self.record(Call::Exec(spec.clone()));
        Ok(0)
    }

    fn images(&mut self) -> (r: Result<Vec<String>, EngineError>)
        ensures
            final(self).containers == old(self).containers,
            final(self).images == old(self).images,
            final(self).version == old(self).version,
    {
        self.record(Call::Images);
        match &self.images {
            Some(images) => {
                let copy = images.clone();
                assert(copy@ =~= images@);
                Ok(copy)
            },
            None => {
                let argv = Call::Images.argv();
                Err(EngineError::Spawn { argv, source: "no image store".to_string() })
            },
        }
    }

    fn run(&mut self, spec: &RunSpec) -> (r: Result<String, EngineError>)
        ensures
            final(self).containers == old(self).containers,
            final(self).images == old(self).images,
            final(self).version == old(self).version,
    {
        self.record(Call::Run(spec.clone()));
        Ok(spec.name.clone())
    }

    fn running_containers(&mut self) -> (r: Result<Vec<String>, EngineError>)
        ensures
            final(self).containers == old(self).containers,
            final(self).images == old(self).images,
            final(self).version == old(self).version,
    {
        self.record(Call::RunningContainers);
        Ok(self.names(true))
    }

    fn stop(&mut self, name: &str) -> (r: Result<(), EngineError>)
        ensures
            final(self).containers == old(self).containers,
            final(self).images == old(self).images,
            final(self).version == old(self).version,
    {
        self.record(Call::Stop(name.to_string()));
        Ok(())
    }

    fn version(&mut self) -> (r: Result<Option<String>, EngineError>)
        ensures
            final(self).containers == old(self).containers,
            final(self).images == old(self).images,
            final(self).version == old(self).version,
    {
        self.record(Call::Version);
        Ok(copy_text(&self.version))
    }
}

/// A `Builder` that records the argv it would have run.
#[derive(Debug, PartialEq)]
pub struct RecordingBuilder {
    pub calls: Calls,
}

impl Default for RecordingBuilder {
    fn default() -> (r: Self)
        ensures
            r.calls.recorded@.len() == 0,
    {
        RecordingBuilder { calls: Calls::default() }
    }
}

/// What the posed builder answers to a call.
pub open spec fn built(call: CallView) -> ReplyView {
    if call is Build {
        ReplyView::Code(Ok(0))
    } else {
        ReplyView::Done(Ok(()))
    }
}

impl RecordingBuilder {
    pub fn new() -> (r: Self)
        ensures
            r.calls.recorded@.len() == 0,
    {
        RecordingBuilder::default()
    }

    /// Every recorded argv, in call order.
    pub fn calls(&self) -> (r: Vec<Vec<String>>)
        ensures
            r@.len() == self.calls.recorded@.len(),
            forall|i: int|
                0 <= i < r@.len() ==> text::views((#[trigger] r@[i])@)
                    == self.calls.recorded@[i]@.argv(),
    {
        self.calls.all()
    }
}

impl Builder for RecordingBuilder {
    open spec fn log(&self) -> Seq<(CallView, ReplyView)> {
        text::views(self.calls.recorded@).map_values(|call: CallView| (call, built(call)))
    }

    fn build(&mut self, spec: &BuildSpec) -> (r: Result<i32, EngineError>) {
        let ghost before = *self;
        let call = Call::Build(spec.clone());
        self.calls.record(call);
        assert(self.log() =~= before.log().push((call@, built(call@))));
        Ok(0)
    }

    fn start_builder(&mut self, memory: Option<&str>) -> (r: Result<(), EngineError>) {
        let ghost before = *self;
        let size = match memory {
            Some(size) => Some(size.to_string()),
            None => None,
        };
        let call = Call::StartBuilder(size);
        self.calls.record(call);
        assert(self.log() =~= before.log().push((call@, built(call@))));
        Ok(())
    }
}

/// A posed engine lists every container it holds, or, where asked, exactly those that
/// are running.
pub proof fn law_a_posed_engine_lists_its_containers(containers: Seq<Container>, last: Container)
    ensures
        names_of(containers.push(last), false) == names_of(containers, false).push(last.name@),
        names_of(containers.push(last), true) == (if last.running {
            names_of(containers, true).push(last.name@)
        } else {
            names_of(containers, true)
        }),
        names_of(seq![], false).len() == 0,
        names_of(seq![], true).len() == 0,
{
    assert(containers.push(last).drop_last() =~= containers);
}

} // verus!

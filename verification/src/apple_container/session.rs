//! A session whose container a daemon keeps: one that outlives the process that
//! started it, and so has to be found, stopped and deleted by name.
use crate::apple_container::engine::{Builder, CallView, Engine, ReplyView};
use crate::apple_container::error::{EngineError, EngineErrorView};
use crate::apple_container::model::{
    BuildSpec, BuildSpecView, ExecSpec, ExecSpecView, RunSpec, RunSpecView,
};
use crate::assistant;
use crate::engine::model;
use crate::manifest::memory;
use crate::manifest::memory::Memory;
use crate::session::image::BUILD_CONTEXT;
use crate::session::Session;
use crate::text;
use vstd::prelude::*;

verus! {

/// What a container's daemon was asked, and what it answered.
pub type Log = Seq<(CallView, ReplyView)>;

/// A container to create, as the daemon is asked for it. It keeps no sockets: those
/// are not the daemon's to know.
pub fn detached(spec: model::RunSpec) -> (r: RunSpec)
    ensures
        r@ == (RunSpecView {
            arguments: spec@.arguments,
            cpus: Some(spec@.resources.cpus),
            detach: true,
            env: spec@.env,
            image: spec@.image,
            memory: Some(memory::shown_memory(spec@.resources.memory_in_bytes as nat)),
            mounts: spec@.mounts,
            name: spec@.name,
            workdir: spec@.workdir,
        }),
{
    let size = Memory { size: spec.resources.memory_in_bytes };
    RunSpec {
        arguments: spec.arguments,
        cpus: Some(spec.resources.cpus),
        detach: true,
        env: spec.env,
        image: spec.image,
        memory: Some(size.to_string()),
        mounts: spec.mounts,
        name: spec.name,
        workdir: spec.workdir,
    }
}

/// A process to attach, as the daemon is asked for it. It keeps no user.
pub fn attached(spec: model::ExecSpec) -> (r: ExecSpec)
    ensures
        r@ == (ExecSpecView {
            arguments: spec@.arguments,
            env: spec@.env,
            interactive: spec@.interactive,
            name: spec@.name,
            tty: spec@.tty,
            workdir: spec@.workdir,
        }),
{
    ExecSpec {
        arguments: spec.arguments,
        env: spec.env,
        interactive: spec.interactive,
        name: spec.name,
        tty: spec.tty,
        workdir: spec.workdir,
    }
}

impl Session {
    /// The container to create.
    pub open spec fn to_detach(&self) -> RunSpecView {
        RunSpecView {
            arguments: self.first_process(),
            cpus: Some(self.manifest.container.cpus),
            detach: true,
            env: self.to_run().env,
            image: self.image_name(),
            memory: Some(memory::shown_memory(self.manifest.container.memory.size as nat)),
            mounts: self.mounted(),
            name: self.container(),
            workdir: Some(self.landing()),
        }
    }

    /// A process to attach.
    pub open spec fn to_reattach(&self, arguments: Seq<Seq<char>>) -> ExecSpecView {
        ExecSpecView {
            arguments,
            env: self.attached_env(),
            interactive: true,
            name: self.container(),
            tty: true,
            workdir: Some(self.landing()),
        }
    }

    /// The image to build.
    pub open spec fn to_build(&self) -> BuildSpecView {
        BuildSpecView {
            context: self.resolver.leads_to("~/.cache/compostbin/build"@),
            memory: Some(memory::shown_memory(self.manifest.container.memory.size as nat)),
            tag: self.manifest.project.image@,
        }
    }

    /// A `container run` of this session.
    pub fn detached_spec(&self) -> (r: RunSpec)
        ensures
            r@ == self.to_detach(),
    {
        let r = detached(self.run_spec());
        assert(r@ =~= self.to_detach());
        r
    }

    /// A `container exec` in this session's container.
    pub fn attached_spec(&self, arguments: &Vec<String>) -> (r: ExecSpec)
        ensures
            r@ == self.to_reattach(text::views(arguments@)),
    {
        attached(self.exec_spec(arguments))
    }

    /// A `container build` of the image this session's manifest names.
    pub fn build_spec(&self) -> (r: BuildSpec)
        ensures
            r@ == self.to_build(),
    {
        BuildSpec {
            context: self.resolve(BUILD_CONTEXT),
            memory: Some(self.manifest.container.memory.to_string()),
            tag: self.manifest.project.image.clone(),
        }
    }

    /// What the last step of a start asks, and what comes of it: the container is
    /// run, and a failure is handed on.
    pub open spec fn is_created(&self, made: Log, r: Result<(), EngineError>) -> bool {
        &&& made.len() == 1
        &&& made[0].0 == CallView::Run(self.to_detach())
        &&& made[0].1 matches ReplyView::Id(reply) && match reply {
            Ok(_) => r is Ok,
            Err(error) => r is Err && r->Err_0@ == error,
        }
    }

    /// What a start asks once the container is known not to be running: whether it
    /// is there at all; that it be deleted, if so; and that it be run.
    pub open spec fn is_recreated(&self, made: Log, r: Result<(), EngineError>) -> bool {
        &&& made.len() >= 1
        &&& made[0].0 == CallView::Containers
        &&& made[0].1 matches ReplyView::Names(reply) && match reply {
            Err(error) => made.len() == 1 && r is Err && r->Err_0@ == error,
            Ok(names) => if !names.contains(self.container()) {
                self.is_created(made.skip(1), r)
            } else {
                &&& made.len() >= 2
                &&& made[1].0 == CallView::Delete(self.container())
                &&& made[1].1 matches ReplyView::Done(reply) && match reply {
                    Err(error) => made.len() == 2 && r is Err && r->Err_0@ == error,
                    Ok(_) => self.is_created(made.skip(2), r),
                }
            },
        }
    }

    /// What a start asks, and what comes of it.
    pub open spec fn is_started(&self, made: Log, r: Result<(), EngineError>) -> bool {
        &&& made.len() >= 1
        &&& made[0].0 == CallView::RunningContainers
        &&& made[0].1 matches ReplyView::Names(reply) && match reply {
            Err(error) => made.len() == 1 && r is Err && r->Err_0@ == error,
            Ok(names) => if names.contains(self.container()) {
                made.len() == 1 && r is Ok
            } else {
                self.is_recreated(made.skip(1), r)
            },
        }
    }

    /// Makes the session's container exist and be running, doing nothing when it
    /// already is: the tool refuses a name that is taken, so a second `run` must
    /// attach rather than recreate. A container that exists but has stopped is
    /// deleted and recreated, since its mounts may no longer match the manifest.
    pub fn start<E: Engine>(&self, engine: &mut E) -> (r: Result<(), EngineError>)
        ensures
            is_extended(old(engine).log(), final(engine).log()),
            self.is_started(added(old(engine).log(), final(engine).log()), r),
    {
        let name = self.container_name();
        let ghost before = engine.log();
        let running = engine.running_containers();
        let ghost asked = engine.log().last();
        assert(added(before, engine.log()) =~= seq![asked]);
        assert(engine.log().take(before.len() as int) =~= before);
        match running {
            Err(error) => {
                return Err(error);
            },
            Ok(names) => {
                if text::lists(&names, name.as_str()) {
                    return Ok(());
                }
            },
        }
        let there = engine.containers();
        let ghost looked = engine.log().last();
        assert(added(before, engine.log()) =~= seq![asked, looked]);
        assert(engine.log().take(before.len() as int) =~= before);
        assert(seq![asked, looked].skip(1) =~= seq![looked]);
        match there {
            Err(error) => Err(error),
            Ok(names) => {
                if text::lists(&names, name.as_str()) {
                    let deleted = engine.delete(name.as_str());
                    let ghost cleared = engine.log().last();
                    assert(added(before, engine.log()) =~= seq![asked, looked, cleared]);
                    assert(engine.log().take(before.len() as int) =~= before);
                    assert(seq![asked, looked, cleared].skip(1) =~= seq![looked, cleared]);
                    match deleted {
                        Err(error) => Err(error),
                        Ok(()) => {
                            let created = engine.run(&self.detached_spec());
                            let ghost made = engine.log().last();
                            assert(added(before, engine.log()) =~= seq![
                                asked,
                                looked,
                                cleared,
                                made,
                            ]);
                            assert(engine.log().take(before.len() as int) =~= before);
                            assert(seq![asked, looked, cleared, made].skip(1) =~= seq![
                                looked,
                                cleared,
                                made,
                            ]);
                            assert(seq![looked, cleared, made].skip(2) =~= seq![made]);
                            handed_on(created)
                        },
                    }
                } else {
                    let created = engine.run(&self.detached_spec());
                    let ghost made = engine.log().last();
                    assert(added(before, engine.log()) =~= seq![asked, looked, made]);
                    assert(engine.log().take(before.len() as int) =~= before);
                    assert(seq![asked, looked, made].skip(1) =~= seq![looked, made]);
                    assert(seq![looked, made].skip(1) =~= seq![made]);
                    handed_on(created)
                }
            },
        }
    }

    /// What a restart asks, as long as nothing fails: that the container be
    /// stopped, deleted and run anew, and that the assistant take up where it was.
    pub open spec fn restarting(&self) -> Seq<CallView> {
        seq![
            CallView::Stop(self.container()),
            CallView::Delete(self.container()),
            CallView::Run(self.to_detach()),
            CallView::Exec(self.to_reattach(seq![self.assistant@, "--continue"@])),
        ]
    }

    /// What a restart asks, and what comes of it: every call but the last is
    /// answered without an error, and what the last is answered is handed on.
    pub open spec fn is_restarted(&self, made: Log, r: Result<i32, EngineError>) -> bool {
        &&& 1 <= made.len() <= 4
        &&& forall|i: int|
            0 <= i < made.len() ==> (#[trigger] made[i]).0 == self.restarting()[i]
        &&& forall|i: int| 0 <= i < made.len() - 1 ==> error_of((#[trigger] made[i]).1) is None
        &&& match error_of(made.last().1) {
            Some(error) => r is Err && r->Err_0@ == error,
            None => made.len() == 4 && r is Ok && made.last().1 == ReplyView::Code(
                Ok(r->Ok_0),
            ),
        }
    }

    /// Recreates the container so a new mount takes effect (mounts cannot be added
    /// to a running container), then reattaches to the same assistant conversation.
    /// Cheap because the assistant's home is a bind mount that outlives the container.
    pub fn restart<E: Engine>(&self, engine: &mut E) -> (r: Result<i32, EngineError>)
        ensures
            is_extended(old(engine).log(), final(engine).log()),
            self.is_restarted(added(old(engine).log(), final(engine).log()), r),
    {
        let name = self.container_name();
        let ghost before = engine.log();
        let stopped = engine.stop(name.as_str());
        let ghost a = engine.log().last();
        assert(added(before, engine.log()) =~= seq![a]);
        assert(engine.log().take(before.len() as int) =~= before);
        match stopped {
            Err(error) => {
                return Err(error);
            },
            Ok(()) => {},
        }
        let deleted = engine.delete(name.as_str());
        let ghost b = engine.log().last();
        assert(added(before, engine.log()) =~= seq![a, b]);
        assert(engine.log().take(before.len() as int) =~= before);
        match deleted {
            Err(error) => {
                return Err(error);
            },
            Ok(()) => {},
        }
        let created = engine.run(&self.detached_spec());
        let ghost c = engine.log().last();
        assert(added(before, engine.log()) =~= seq![a, b, c]);
        assert(engine.log().take(before.len() as int) =~= before);
        match created {
            Err(error) => {
                return Err(error);
            },
            Ok(_) => {},
        }
        let mut arguments: Vec<String> = Vec::new();
        arguments.push(self.assistant.name.clone());
        arguments.push("--continue".to_string());
        assert(text::views(arguments@) =~= seq![self.assistant@, "--continue"@]);
        let attached = engine.exec(&self.attached_spec(&arguments));
        let ghost d = engine.log().last();
        assert(added(before, engine.log()) =~= seq![a, b, c, d]);
        assert(engine.log().take(before.len() as int) =~= before);
        attached
    }

    /// What a build asks, and what comes of it: the builder is started, at the
    /// manifest's memory size, and then, unless that fails, the image is built.
    pub open spec fn is_built(&self, made: Log, r: Result<i32, EngineError>) -> bool {
        &&& made.len() >= 1
        &&& made[0].0 == CallView::StartBuilder(self.to_build().memory)
        &&& match error_of(made[0].1) {
            Some(error) => made.len() == 1 && r is Err && r->Err_0@ == error,
            None => {
                &&& made.len() == 2
                &&& made[1].0 == CallView::Build(self.to_build())
                &&& match error_of(made[1].1) {
                    Some(error) => r is Err && r->Err_0@ == error,
                    None => r is Ok && made[1].1 == ReplyView::Code(Ok(r->Ok_0)),
                }
            },
        }
    }

    /// Builds the image the manifest names, once its context is written. The
    /// builder is started first, at the manifest's memory size: installing the
    /// assistant takes more than its default.
    pub fn build<B: Builder>(&self, builder: &mut B) -> (r: Result<i32, EngineError>)
        ensures
            is_extended(old(builder).log(), final(builder).log()),
            self.is_built(added(old(builder).log(), final(builder).log()), r),
    {
        let ghost before = builder.log();
        let size = self.manifest.container.memory.to_string();
        let started = builder.start_builder(Some(size.as_str()));
        let ghost a = builder.log().last();
        assert(added(before, builder.log()) =~= seq![a]);
        assert(builder.log().take(before.len() as int) =~= before);
        match started {
            Err(error) => {
                return Err(error);
            },
            Ok(()) => {},
        }
        let built = builder.build(&self.build_spec());
        let ghost b = builder.log().last();
        assert(added(before, builder.log()) =~= seq![a, b]);
        assert(builder.log().take(before.len() as int) =~= before);
        built
    }
}

/// Why a call failed, where it did.
pub open spec fn error_of(reply: ReplyView) -> Option<EngineErrorView> {
    match reply {
        ReplyView::Code(Err(error)) => Some(error),
        ReplyView::Done(Err(error)) => Some(error),
        ReplyView::Id(Err(error)) => Some(error),
        ReplyView::Names(Err(error)) => Some(error),
        ReplyView::Version(Err(error)) => Some(error),
        _ => None,
    }
}

fn handed_on(created: Result<String, EngineError>) -> (r: Result<(), EngineError>)
    ensures
        match created {
            Ok(_) => r is Ok,
            Err(error) => r == Err::<(), EngineError>(error),
        },
{
    match created {
        Ok(_) => Ok(()),
        Err(error) => Err(error),
    }
}

/// Whether a log is another with more calls.
pub open spec fn is_extended(before: Log, after: Log) -> bool {
    before.len() <= after.len() && after.take(before.len() as int) == before
}

/// What a log has gained.
pub open spec fn added(before: Log, after: Log) -> Log {
    after.skip(before.len() as int)
}

/// A container that is running is left as it is: it is neither deleted nor run
/// anew.
pub proof fn law_a_running_container_is_not_recreated(
    session: &Session,
    made: Log,
    r: Result<(), EngineError>,
    names: Seq<Seq<char>>,
)
    requires
        session.is_started(made, r),
        made[0].1 == ReplyView::Names(Ok(names)),
        names.contains(session.container()),
    ensures
        made.len() == 1,
        r is Ok,
{
}

/// A restart creates a container with the mounts that a start would, the assistant's home
/// among them: what outlives the container is what the conversation is in.
pub proof fn law_a_restart_keeps_claudes_home(session: &Session)
    ensures
        session.restarting()[2] == CallView::Run(session.to_detach()),
        session.to_detach().mounts.last().source == session.home(),
        session.to_detach().mounts.last().target == assistant::guest_home(session.assistant@),
        !session.to_detach().mounts.last().readonly,
{
}

/// A container that is not running is made anew: one that is still there is deleted
/// first, one that is not is not. What the start comes to is what the run did.
pub proof fn law_a_stopped_container_is_made_anew(
    session: &Session,
    made: Log,
    r: Result<(), EngineError>,
    running: Seq<Seq<char>>,
    there: Seq<Seq<char>>,
)
    requires
        session.is_started(made, r),
        made[0].1 == ReplyView::Names(Ok(running)),
        !running.contains(session.container()),
        made[1].1 == ReplyView::Names(Ok(there)),
    ensures
        made[0].0 == CallView::RunningContainers,
        made[1].0 == CallView::Containers,
        there.contains(session.container()) ==> {
            &&& made[2].0 == CallView::Delete(session.container())
            &&& made[2].1 == ReplyView::Done(Ok(())) ==> made.len() == 4 && made[3].0
                == CallView::Run(session.to_detach()) && (r is Ok <==> made[3].1 matches
                ReplyView::Id(Ok(_)))
            &&& made[2].1 matches ReplyView::Done(Err(_)) ==> made.len() == 3 && r is Err
        },
        !there.contains(session.container()) ==> {
            &&& made.len() == 3
            &&& made[2].0 == CallView::Run(session.to_detach())
            &&& r is Ok <==> made[2].1 matches ReplyView::Id(Ok(_))
        },
{
    let rest = made.skip(1);
    assert(rest[0] == made[1]);
    if there.contains(session.container()) {
        assert(rest[1] == made[2]);
        if made[2].1 == ReplyView::Done(Ok(())) {
            assert(rest.skip(2)[0] == made[3]);
        }
    } else {
        assert(rest.skip(1)[0] == made[2]);
    }
}

/// The container that the tool runs is the one that any engine would: the same image,
/// mounts, variables, process, place and size, and in the background.
pub proof fn law_a_detached_container_is_the_sessions_own(session: &Session)
    ensures
        ({
            let detached = session.to_detach();
            let run = session.to_run();
            &&& detached.detach
            &&& detached.name == run.name
            &&& detached.image == run.image
            &&& detached.mounts == run.mounts
            &&& detached.env == run.env
            &&& detached.arguments == run.arguments
            &&& detached.workdir == run.workdir
            &&& detached.cpus == Some(session.manifest.container.cpus)
            &&& detached.memory is Some
            &&& session.manifest.container.memory.size > 0 ==> memory::read_memory(
                detached.memory->0,
            ) == Some(session.manifest.container.memory.size)
        }),
{
    if session.manifest.container.memory.size > 0 {
        memory::law_memory_reads_back_as_written(session.manifest.container.memory);
    }
}

/// A restart that gets that far stops the container, deletes it, runs it anew and
/// takes up the conversation, in this order, with the terminal attached.
pub proof fn law_a_restart_takes_up_the_conversation(
    session: &Session,
    made: Log,
    r: Result<i32, EngineError>,
)
    requires
        session.is_restarted(made, r),
    ensures
        made[0].0 == CallView::Stop(session.container()),
        made.len() > 1 ==> made[1].0 == CallView::Delete(session.container()),
        made.len() > 2 ==> made[2].0 == CallView::Run(session.to_detach()),
        made.len() > 3 ==> {
            &&& made[3].0 matches CallView::Exec(spec)
            &&& spec.arguments == seq![session.assistant@, "--continue"@]
            &&& spec.name == session.container()
            &&& spec.tty && spec.interactive
        },
        r is Ok ==> made.len() == 4,
{
    assert(made[0].0 == session.restarting()[0]);
    if made.len() > 1 {
        assert(made[1].0 == session.restarting()[1]);
    }
    if made.len() > 2 {
        assert(made[2].0 == session.restarting()[2]);
    }
    if made.len() > 3 {
        assert(made[3].0 == session.restarting()[3]);
    }
}

/// A build starts the builder at the manifest's size, and builds the image that the
/// manifest names only once that has succeeded.
pub proof fn law_an_image_is_built_once_the_builder_is_up(
    session: &Session,
    made: Log,
    r: Result<i32, EngineError>,
)
    requires
        session.is_built(made, r),
    ensures
        made[0].0 matches CallView::StartBuilder(Some(_)),
        made.len() == 2 ==> made[1].0 is Build && session.to_build().tag
            == session.manifest.project.image@ && made[1].0 == CallView::Build(session.to_build()),
        r is Ok ==> made.len() == 2,
        made[0].1 matches ReplyView::Done(Err(_)) ==> made.len() == 1 && r is Err,
        made[0].1 matches ReplyView::Done(Ok(_)) ==> made.len() == 2,
        error_of(ReplyView::Done(Ok(()))) is None,
{
}

} // verus!

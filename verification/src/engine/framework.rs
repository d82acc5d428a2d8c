//! What a container framework is asked for.
//!
//! Everything compostbin decides and the framework does not: which host
//! variables an `Inherit` resolves against, where a guest sits on the NAT
//! network, what a builder container is called, and how a build's cache keys
//! are given to it.
use crate::engine::cache::Keys;
use crate::engine::model::{
    copy_path, copy_text, BuildMount, BuildMountView, BuildPlan, BuildStep, BuildStepView, EnvVar,
    EnvVarView, Label, LabelView, Mount, MountView, Resources, RunSpec, SocketRelay,
    SocketRelayView,
};
use crate::engine::network;
use crate::engine::network::{Network, NetworkView};
use crate::paths::PathBuf;
use crate::text;
use vstd::prelude::*;

verus! {

// ---------------------------------------------------------------------------
// Environment
// ---------------------------------------------------------------------------

/// `NAME=VALUE` for one variable, given the host's value of it; nothing where
/// it is inherited and unset on the host.
pub open spec fn assignment(variable: EnvVarView, host: Option<Seq<char>>) -> Option<Seq<char>> {
    match variable {
        EnvVarView::Inherit(name) => match host {
            Some(value) => Some(name + "="@ + value),
            None => None,
        },
        EnvVarView::Assign { name, value } => Some(name + "="@ + value),
    }
}

/// `NAME=VALUE` for each variable that has a value, in order.
pub open spec fn assignments(env: Seq<EnvVarView>, host: Seq<Option<Seq<char>>>) -> Seq<Seq<char>>
    decreases env.len(),
{
    if env.len() == 0 {
        seq![]
    } else {
        let rest = assignments(env.drop_last(), host);
        match assignment(env.last(), host[env.len() - 1]) {
            Some(shown) => rest.push(shown),
            None => rest,
        }
    }
}

/// The host's values, as sequences of characters.
pub open spec fn host_values(host: Seq<Option<String>>) -> Seq<Option<Seq<char>>> {
    host.map_values(|value: Option<String>| text::view_of(value))
}

/// `NAME=VALUE`. `host[i]` is the host's value of the variable `env[i]`.
///
/// An `Inherit` unset on the host is dropped, not passed empty, so the guest
/// can tell unset from empty.
pub fn environment(env: &Vec<EnvVar>, host: &Vec<Option<String>>) -> (r: Vec<String>)
    requires
        env@.len() == host@.len(),
    ensures
        text::views(r@) == assignments(text::views(env@), host_values(host@)),
{
    let ghost vars = text::views(env@);
    let ghost values = host_values(host@);
    let mut out: Vec<String> = Vec::new();
    let mut i: usize = 0;
    assert(text::views(out@) =~= assignments(vars.take(0), values));
    while i < env.len()
        invariant
            i <= env@.len(),
            env@.len() == host@.len(),
            vars == text::views(env@),
            values == host_values(host@),
            text::views(out@) == assignments(vars.take(i as int), values),
        decreases env.len() - i,
    {
        assert(vars.take(i + 1).drop_last() =~= vars.take(i as int));
        assert(vars.take(i + 1).last() == env@[i as int]@);
        assert(values[i as int] == text::view_of(host@[i as int]));
        match &env[i] {
            EnvVar::Inherit(name) => {
                if let Some(value) = &host[i] {
                    let mut shown = name.clone();
                    shown.append("=");
                    shown.append(value.as_str());
                    proof {
                        text::lemma_views_push(out@, shown);
                    }
                    out.push(shown);
                }
            },
            EnvVar::Assign { name, value } => {
                let mut shown = name.clone();
                shown.append("=");
                shown.append(value.as_str());
                proof {
                    text::lemma_views_push(out@, shown);
                }
                out.push(shown);
            },
        }
        i = i + 1;
    }
    assert(vars.take(i as int) =~= vars);
    out
}

/// The guest's working directory; `/` when none is declared.
pub fn working_directory(workdir: &Option<PathBuf>) -> (r: String)
    ensures
        r@ == (match *workdir {
            Some(path) => path@,
            None => "/"@,
        }),
{
    match workdir {
        Some(path) => path.display(),
        None => "/".to_string(),
    }
}

// ---------------------------------------------------------------------------
// Booting
// ---------------------------------------------------------------------------

/// Which way a relayed socket is reached.
#[derive(Clone, Copy, Debug, PartialEq, Eq, Structural)]
pub enum Direction {
    /// The guest connects; the listener is on the host.
    IntoGuest,
    /// The host connects; the listener is in the guest.
    OutOfGuest,
}

/// A unix socket relayed between host and guest.
#[derive(Debug, PartialEq)]
pub struct GuestSocket {
    pub direction: Direction,
    /// Mode of the socket this creates.
    pub mode: u32,
    pub source: PathBuf,
    pub target: PathBuf,
}

/// A `GuestSocket`, its paths as sequences of characters.
#[verifier::ext_equal]
pub struct GuestSocketView {
    pub direction: Direction,
    pub mode: u32,
    pub source: Seq<char>,
    pub target: Seq<char>,
}

impl View for GuestSocket {
    type V = GuestSocketView;

    open spec fn view(&self) -> GuestSocketView {
        GuestSocketView {
            direction: self.direction,
            mode: self.mode,
            source: self.source@,
            target: self.target@,
        }
    }
}

/// The mode of a relayed socket, which lets an unprivileged guest user open
/// one the guest owns as root: read and write for everybody.
pub const SOCKET_MODE: u32 = 0o666;

/// A host socket the guest reaches, world-accessible inside the guest.
pub open spec fn into_guest(socket: SocketRelayView) -> GuestSocketView {
    GuestSocketView {
        direction: Direction::IntoGuest,
        mode: 0o666,
        source: socket.source,
        target: socket.target,
    }
}

/// A container to boot.
#[derive(Debug, PartialEq)]
pub struct BootSpec {
    pub arguments: Vec<String>,
    pub environment: Vec<String>,
    pub image: String,
    pub mounts: Vec<Mount>,
    pub name: String,
    pub network: Network,
    pub resources: Resources,
    pub sockets: Vec<GuestSocket>,
    pub workdir: Option<PathBuf>,
}

/// A `BootSpec`, its texts as sequences of characters.
#[verifier::ext_equal]
pub struct BootSpecView {
    pub arguments: Seq<Seq<char>>,
    pub environment: Seq<Seq<char>>,
    pub image: Seq<char>,
    pub mounts: Seq<MountView>,
    pub name: Seq<char>,
    pub network: NetworkView,
    pub resources: Resources,
    pub sockets: Seq<GuestSocketView>,
    pub workdir: Option<Seq<char>>,
}

impl View for BootSpec {
    type V = BootSpecView;

    open spec fn view(&self) -> BootSpecView {
        BootSpecView {
            arguments: text::views(self.arguments@),
            environment: text::views(self.environment@),
            image: self.image@,
            mounts: text::views(self.mounts@),
            name: self.name@,
            network: self.network@,
            resources: self.resources,
            sockets: text::views(self.sockets@),
            workdir: text::view_of(self.workdir),
        }
    }
}

fn guest_sockets(sockets: &Vec<SocketRelay>) -> (r: Vec<GuestSocket>)
    ensures
        text::views(r@) == text::views(sockets@).map_values(|s: SocketRelayView| into_guest(s)),
{
    let mut out: Vec<GuestSocket> = Vec::new();
    let mut i: usize = 0;
    while i < sockets.len()
        invariant
            i <= sockets@.len(),
            out@.len() == i,
            forall|j: int| 0 <= j < i ==> (#[trigger] out@[j])@ == into_guest(sockets@[j]@),
        decreases sockets.len() - i,
    {
        let socket = &sockets[i];
        out.push(
            GuestSocket {
                direction: Direction::IntoGuest,
                mode: SOCKET_MODE,
                source: socket.source.clone(),
                target: socket.target.clone(),
            },
        );
        i = i + 1;
    }
    assert(text::views(out@) =~= text::views(sockets@).map_values(
        |s: SocketRelayView| into_guest(s),
    ));
    out
}

/// A session's container, on its own address. `host[i]` is the host's value of
/// the variable `spec.env[i]`.
pub fn boot(spec: &RunSpec, host: &Vec<Option<String>>) -> (r: BootSpec)
    requires
        spec.env@.len() == host@.len(),
    ensures
        r@ == (BootSpecView {
            arguments: spec@.arguments,
            environment: assignments(spec@.env, host_values(host@)),
            image: spec@.image,
            mounts: spec@.mounts,
            name: spec@.name,
            network: network::network_of(spec@.name),
            resources: spec@.resources,
            sockets: spec@.sockets.map_values(|s: SocketRelayView| into_guest(s)),
            workdir: spec@.workdir,
        }),
{
    let arguments = spec.arguments.clone();
    assert(arguments@ =~= spec.arguments@);
    let mounts = spec.mounts.clone();
    assert(mounts@ =~= spec.mounts@);
    BootSpec {
        arguments,
        environment: environment(&spec.env, host),
        image: spec.image.clone(),
        mounts,
        name: spec.name.clone(),
        network: network::network(spec.name.as_str()),
        resources: spec.resources,
        sockets: guest_sockets(&spec.sockets),
        workdir: copy_path(&spec.workdir),
    }
}

// ---------------------------------------------------------------------------
// Building
// ---------------------------------------------------------------------------

/// A build step with the key of the rootfs once it has run.
#[derive(Debug, PartialEq, Eq)]
pub struct KeyedStep {
    pub cache_key: String,
    pub name: String,
    pub script: String,
    pub user: Option<String>,
}

/// A `KeyedStep`, its texts as sequences of characters.
#[verifier::ext_equal]
pub struct KeyedStepView {
    pub cache_key: Seq<char>,
    pub name: Seq<char>,
    pub script: Seq<char>,
    pub user: Option<Seq<char>>,
}

impl View for KeyedStep {
    type V = KeyedStepView;

    open spec fn view(&self) -> KeyedStepView {
        KeyedStepView {
            cache_key: self.cache_key@,
            name: self.name@,
            script: self.script@,
            user: text::view_of(self.user),
        }
    }
}

/// How a build treats its rootfs snapshots: whether it resumes from the
/// deepest matching one. They are written either way.
#[derive(Clone, Copy, Debug, PartialEq, Eq, Structural)]
pub struct CachePolicy {
    pub restore: bool,
}

/// An image to build, with its keys and a builder container of its own.
#[derive(Debug, PartialEq)]
pub struct BuildSpec {
    pub base: String,
    pub base_key: String,
    pub cache: CachePolicy,
    pub environment: Vec<String>,
    pub labels: Vec<Label>,
    pub mounts: Vec<BuildMount>,
    pub name: String,
    pub network: Network,
    pub resources: Resources,
    pub steps: Vec<KeyedStep>,
    pub tag: String,
    pub user: Option<String>,
    pub workdir: Option<PathBuf>,
}

/// A `BuildSpec`, its texts as sequences of characters.
#[verifier::ext_equal]
pub struct BuildSpecView {
    pub base: Seq<char>,
    pub base_key: Seq<char>,
    pub cache: CachePolicy,
    pub environment: Seq<Seq<char>>,
    pub labels: Seq<LabelView>,
    pub mounts: Seq<BuildMountView>,
    pub name: Seq<char>,
    pub network: NetworkView,
    pub resources: Resources,
    pub steps: Seq<KeyedStepView>,
    pub tag: Seq<char>,
    pub user: Option<Seq<char>>,
    pub workdir: Option<Seq<char>>,
}

impl View for BuildSpec {
    type V = BuildSpecView;

    open spec fn view(&self) -> BuildSpecView {
        BuildSpecView {
            base: self.base@,
            base_key: self.base_key@,
            cache: self.cache,
            environment: text::views(self.environment@),
            labels: text::views(self.labels@),
            mounts: text::views(self.mounts@),
            name: self.name@,
            network: self.network@,
            resources: self.resources,
            steps: text::views(self.steps@),
            tag: self.tag@,
            user: text::view_of(self.user),
            workdir: text::view_of(self.workdir),
        }
    }
}

/// Each step with its key. Where there are fewer of one than of the other, the
/// rest are left out.
pub open spec fn keyed(steps: Seq<BuildStepView>, keys: Seq<Seq<char>>) -> Seq<KeyedStepView> {
    let n = if steps.len() <= keys.len() {
        steps.len()
    } else {
        keys.len()
    };
    Seq::new(
        n,
        |i: int|
            KeyedStepView {
                cache_key: keys[i],
                name: steps[i].name,
                script: steps[i].script,
                user: steps[i].user,
            },
    )
}

fn keyed_steps(steps: &Vec<BuildStep>, keys: &Vec<String>) -> (r: Vec<KeyedStep>)
    ensures
        text::views(r@) == keyed(text::views(steps@), text::views(keys@)),
{
    let mut out: Vec<KeyedStep> = Vec::new();
    let mut i: usize = 0;
    while i < steps.len() && i < keys.len()
        invariant
            i <= steps@.len(),
            i <= keys@.len(),
            out@.len() == i,
            forall|j: int|
                0 <= j < i ==> (#[trigger] out@[j])@ == (KeyedStepView {
                    cache_key: keys@[j]@,
                    name: steps@[j]@.name,
                    script: steps@[j]@.script,
                    user: steps@[j]@.user,
                }),
        decreases steps.len() - i,
    {
        let step = &steps[i];
        out.push(
            KeyedStep {
                cache_key: keys[i].clone(),
                name: step.name.clone(),
                script: step.script.clone(),
                user: copy_text(&step.user),
            },
        );
        i = i + 1;
    }
    assert(text::views(out@) =~= keyed(text::views(steps@), text::views(keys@)));
    out
}

/// A build, with the caller's keys and a builder container of its own.
///
/// The image every compostbin build produces is a Debian derivative, so the
/// framework's own shell holds and nothing overrides it.
pub fn build(plan: &BuildPlan, keys: &Keys, name: String) -> (r: BuildSpec)
    ensures
        r@ == (BuildSpecView {
            base: plan@.base,
            base_key: keys.base@,
            cache: CachePolicy { restore: plan@.cache },
            environment: plan@.environment,
            labels: plan@.labels,
            mounts: plan@.mounts,
            name: name@,
            network: network::network_of(name@),
            resources: plan@.resources,
            steps: keyed(plan@.steps, text::views(keys.steps@)),
            tag: plan@.tag,
            user: plan@.user,
            workdir: plan@.workdir,
        }),
{
    let copy = plan.clone();
    let network = network::network(name.as_str());
    BuildSpec {
        base: copy.base,
        base_key: keys.base.clone(),
        cache: CachePolicy { restore: plan.cache },
        environment: copy.environment,
        labels: copy.labels,
        mounts: copy.mounts,
        name,
        network,
        resources: plan.resources,
        steps: keyed_steps(&plan.steps, &keys.steps),
        tag: copy.tag,
        user: copy.user,
        workdir: copy.workdir,
    }
}

// ---------------------------------------------------------------------------
// Naming a builder
// ---------------------------------------------------------------------------

/// An error of the `getrandom` crate.
#[verifier::external_type_specification]
#[verifier::external_body]
pub struct ExRandomError(getrandom::Error);

/// Four random bytes: `getrandom::fill`, which fills the buffer from the
/// system's source of randomness or reports that it could not. Which bytes come
/// is chance, so nothing is claimed of them.
#[verifier::external_body]
fn random_bytes() -> (r: Result<[u8; 4], getrandom::Error>) {
    let mut bytes = [0u8; 4];
    getrandom::fill(&mut bytes)?;
    Ok(bytes)
}

/// What a builder container is called, given its random bytes.
pub open spec fn builder_name_of(bytes: Seq<u8>) -> Seq<char> {
    "cb-builder-"@ + text::hex(bytes)
}

/// What a builder container is called, given its random bytes.
pub fn builder_name_from(bytes: &[u8; 4]) -> (r: String)
    ensures
        r@ == builder_name_of(bytes@),
{
    let mut out = "cb-builder-".to_string();
    out.append(text::hex_text(bytes.as_slice()).as_str());
    out
}

/// What a builder container is called, given what came of drawing its random
/// bytes: a failure to draw them is passed on as it is.
pub fn builder_name_drawn(drawn: Result<[u8; 4], getrandom::Error>) -> (r: Result<
    String,
    getrandom::Error,
>)
    ensures
        match drawn {
            Ok(bytes) => r matches Ok(name) && name@ == builder_name_of(bytes@),
            Err(error) => r == Err::<String, getrandom::Error>(error),
        },
{
    match drawn {
        Ok(bytes) => Ok(builder_name_from(&bytes)),
        Err(error) => Err(error),
    }
}

/// The builder container's id (and store directory). Random, so concurrent
/// builds never share a rootfs; short, as Containerization caps ids at 64.
pub fn builder_name() -> (r: Result<String, getrandom::Error>)
    ensures
        r matches Ok(name) ==> exists|bytes: Seq<u8>|
            bytes.len() == 4 && name@ == #[trigger] builder_name_of(bytes),
{
    builder_name_drawn(random_bytes())
}

/// Builders with different bytes have different names, each of nineteen
/// characters.
pub proof fn law_builder_names_differ(a: Seq<u8>, b: Seq<u8>)
    requires
        a.len() == 4,
        b.len() == 4,
    ensures
        builder_name_of(a) == builder_name_of(b) ==> a == b,
        builder_name_of(a).len() == 19,
{
    reveal_strlit("cb-builder-");
    reveal_with_fuel(text::hex, 5);
    let stem = "cb-builder-"@;
    assert(builder_name_of(a).skip(stem.len() as int) =~= text::hex(a));
    assert(builder_name_of(b).skip(stem.len() as int) =~= text::hex(b));
    if builder_name_of(a) == builder_name_of(b) {
        text::lemma_hex_injective(a, b);
    }
}

proof fn lemma_assignments(env: Seq<EnvVarView>, host: Seq<Option<Seq<char>>>, shown: Seq<char>)
    ensures
        assignments(env, host).contains(shown) <==> exists|i: int|
            0 <= i < env.len() && assignment(#[trigger] env[i], host[i]) == Some(shown),
    decreases env.len(),
{
    if env.len() > 0 {
        let rest = env.drop_last();
        let shorter = assignments(rest, host);
        let whole = assignments(env, host);
        lemma_assignments(rest, host, shown);
        assert(env[env.len() - 1] == env.last());
        if shorter.contains(shown) {
            let i = choose|i: int|
                0 <= i < rest.len() && assignment(#[trigger] rest[i], host[i]) == Some(shown);
            assert(env[i] == rest[i]);
            let k = choose|k: int| 0 <= k < shorter.len() && shorter[k] == shown;
            assert(whole[k] == shown);
        }
        if assignment(env.last(), host[env.len() - 1]) == Some(shown) {
            assert(whole[whole.len() - 1] == shown);
        }
        if whole.contains(shown) && !shorter.contains(shown) {
            let k = choose|k: int| 0 <= k < whole.len() && whole[k] == shown;
            if k < shorter.len() {
                assert(shorter[k] == shown);
            }
        }
        if exists|i: int|
            0 <= i < env.len() && assignment(#[trigger] env[i], host[i]) == Some(shown) {
            let i = choose|i: int|
                0 <= i < env.len() && assignment(#[trigger] env[i], host[i]) == Some(shown);
            if i < rest.len() {
                assert(rest[i] == env[i]);
            }
        }
    }
}

/// Every variable that has a value is passed on, and nothing else is: one that is
/// set with the value it is set to, and one that is inherited with the host's, where
/// the host has one.
pub proof fn law_exactly_variables_with_a_value_are_passed(
    env: Seq<EnvVarView>,
    host: Seq<Option<Seq<char>>>,
    shown: Seq<char>,
)
    requires
        env.len() == host.len(),
    ensures
        assignments(env, host).contains(shown) <==> exists|i: int|
            0 <= i < env.len() && match #[trigger] env[i] {
                EnvVarView::Assign { name, value } => shown == name + "="@ + value,
                EnvVarView::Inherit(name) => host[i] is Some && shown == name + "="@ + host[i]->0,
            },
{
    lemma_assignments(env, host, shown);
    if assignments(env, host).contains(shown) {
        let i = choose|i: int|
            0 <= i < env.len() && assignment(#[trigger] env[i], host[i]) == Some(shown);
        assert(match env[i] {
            EnvVarView::Assign { name, value } => shown == name + "="@ + value,
            EnvVarView::Inherit(name) => host[i] is Some && shown == name + "="@ + host[i]->0,
        });
    }
}

/// A relayed socket is one of the host that the guest connects to, whoever it runs
/// as: everybody may read and write it.
pub proof fn law_every_guest_user_reaches_a_socket(socket: SocketRelayView)
    ensures
        into_guest(socket).source == socket.source,
        into_guest(socket).target == socket.target,
        into_guest(socket).direction == Direction::IntoGuest,
        into_guest(socket).mode == 438,
{
}

/// Every step of a build is carried out as it is, in order, under its own key.
pub proof fn law_every_step_has_its_own_key(
    steps: Seq<BuildStepView>,
    keys: Seq<Seq<char>>,
    i: int,
)
    requires
        keys.len() == steps.len(),
        0 <= i < steps.len(),
    ensures
        keyed(steps, keys).len() == steps.len(),
        keyed(steps, keys)[i].cache_key == keys[i],
        keyed(steps, keys)[i].name == steps[i].name,
        keyed(steps, keys)[i].script == steps[i].script,
        keyed(steps, keys)[i].user == steps[i].user,
{
}

/// A builder is called by all of its random bytes.
pub proof fn law_a_builder_is_called_by_its_bytes(bytes: Seq<u8>)
    ensures
        builder_name_of(bytes) == "cb-builder-"@ + text::hex(bytes),
        text::hex(bytes).is_suffix_of(builder_name_of(bytes)),
{
    let name = builder_name_of(bytes);
    let end = text::hex(bytes);
    assert(end =~= name.subrange(name.len() - end.len(), name.len() as int));
}

} // verus!

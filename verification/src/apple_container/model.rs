//! What the `container` tool is called with.
use crate::engine::model::{copy_path, copy_text, EnvVar, EnvVarView, Mount, MountView};
use crate::paths::PathBuf;
use crate::text;
use vstd::prelude::*;

verus! {

// ---------------------------------------------------------------------------
// Arguments
// ---------------------------------------------------------------------------

/// An option and its value, where there is one.
pub open spec fn option(name: Seq<char>, value: Option<Seq<char>>) -> Seq<Seq<char>> {
    match value {
        Some(value) => seq![name, value],
        None => Seq::empty(),
    }
}

/// A flag, where it is on.
pub open spec fn flag(name: Seq<char>, on: bool) -> Seq<Seq<char>> {
    if on {
        seq![name]
    } else {
        Seq::empty()
    }
}

/// An option for each of some values, in order.
pub open spec fn options(name: Seq<char>, values: Seq<Seq<char>>) -> Seq<Seq<char>>
    decreases values.len(),
{
    if values.len() == 0 {
        Seq::empty()
    } else {
        options(name, values.drop_last()) + seq![name, values.last()]
    }
}

/// A variable, as `--env` takes it: `NAME` to inherit the host's value,
/// `NAME=VALUE` to set it.
pub open spec fn env_argument(variable: EnvVarView) -> Seq<char> {
    match variable {
        EnvVarView::Inherit(name) => name,
        EnvVarView::Assign { name, value } => name + "="@ + value,
    }
}

/// Variables, as `--env` takes them.
pub open spec fn env_arguments(variables: Seq<EnvVarView>) -> Seq<Seq<char>> {
    variables.map_values(|variable: EnvVarView| env_argument(variable))
}

/// Mounts, as `--volume` takes them.
pub open spec fn mount_arguments(mounts: Seq<MountView>) -> Seq<Seq<char>> {
    mounts.map_values(|mount: MountView| mount.shown())
}

fn push_word(argv: &mut Vec<String>, word: &str)
    ensures
        text::views(final(argv)@) == text::views(old(argv)@).push(word@),
{
    let word = word.to_string();
    proof {
        text::lemma_views_push(argv@, word);
    }
    argv.push(word);
}

fn push_option(argv: &mut Vec<String>, name: &str, value: &str)
    ensures
        text::views(final(argv)@) == text::views(old(argv)@) + seq![name@, value@],
{
    let ghost before = text::views(argv@);
    push_word(argv, name);
    push_word(argv, value);
    assert(before.push(name@).push(value@) =~= before + seq![name@, value@]);
}

fn push_flag(argv: &mut Vec<String>, name: &str, on: bool)
    ensures
        text::views(final(argv)@) == text::views(old(argv)@) + flag(name@, on),
{
    let ghost before = text::views(argv@);
    if on {
        push_word(argv, name);
    }
    assert(text::views(argv@) =~= before + flag(name@, on));
}

fn push_words(argv: &mut Vec<String>, words: &Vec<String>)
    ensures
        text::views(final(argv)@) == text::views(old(argv)@) + text::views(words@),
{
    let ghost before = text::views(argv@);
    let ghost all = text::views(words@);
    let mut i: usize = 0;
    assert(text::views(argv@) =~= before + all.take(0));
    while i < words.len()
        invariant
            i <= words@.len(),
            all == text::views(words@),
            text::views(argv@) == before + all.take(i as int),
        decreases words.len() - i,
    {
        push_word(argv, words[i].as_str());
        assert(text::views(argv@) =~= before + all.take(i + 1));
        i = i + 1;
    }
    assert(all.take(i as int) =~= all);
}

fn push_env(argv: &mut Vec<String>, env: &Vec<EnvVar>)
    ensures
        text::views(final(argv)@) == text::views(old(argv)@) + options(
            "--env"@,
            env_arguments(text::views(env@)),
        ),
{
    let ghost before = text::views(argv@);
    let ghost all = env_arguments(text::views(env@));
    let mut i: usize = 0;
    assert(text::views(argv@) =~= before + options("--env"@, all.take(0)));
    while i < env.len()
        invariant
            i <= env@.len(),
            all == env_arguments(text::views(env@)),
            text::views(argv@) == before + options("--env"@, all.take(i as int)),
        decreases env.len() - i,
    {
        assert(all[i as int] == env_argument(env@[i as int]@));
        assert(all.take(i + 1).drop_last() =~= all.take(i as int));
        match &env[i] {
            EnvVar::Inherit(name) => push_option(argv, "--env", name.as_str()),
            EnvVar::Assign { name, value } => {
                let mut argument = name.clone();
                argument.append("=");
                argument.append(value.as_str());
                push_option(argv, "--env", argument.as_str());
            },
        }
        assert(text::views(argv@) =~= before + options("--env"@, all.take(i + 1)));
        i = i + 1;
    }
    assert(all.take(i as int) =~= all);
}

fn push_volumes(argv: &mut Vec<String>, mounts: &Vec<Mount>)
    ensures
        text::views(final(argv)@) == text::views(old(argv)@) + options(
            "--volume"@,
            mount_arguments(text::views(mounts@)),
        ),
{
    let ghost before = text::views(argv@);
    let ghost all = mount_arguments(text::views(mounts@));
    let mut i: usize = 0;
    assert(text::views(argv@) =~= before + options("--volume"@, all.take(0)));
    while i < mounts.len()
        invariant
            i <= mounts@.len(),
            all == mount_arguments(text::views(mounts@)),
            text::views(argv@) == before + options("--volume"@, all.take(i as int)),
        decreases mounts.len() - i,
    {
        assert(all[i as int] == mounts@[i as int]@.shown());
        assert(all.take(i + 1).drop_last() =~= all.take(i as int));
        push_option(argv, "--volume", mounts[i].to_string().as_str());
        assert(text::views(argv@) =~= before + options("--volume"@, all.take(i + 1)));
        i = i + 1;
    }
    assert(all.take(i as int) =~= all);
}

fn push_workdir(argv: &mut Vec<String>, workdir: &Option<PathBuf>)
    ensures
        text::views(final(argv)@) == text::views(old(argv)@) + option(
            "--workdir"@,
            text::view_of(*workdir),
        ),
{
    let ghost before = text::views(argv@);
    match workdir {
        Some(path) => push_option(argv, "--workdir", path.as_str()),
        None => {},
    }
    assert(text::views(argv@) =~= before + option("--workdir"@, text::view_of(*workdir)));
}

fn push_memory(argv: &mut Vec<String>, memory: &Option<String>)
    ensures
        text::views(final(argv)@) == text::views(old(argv)@) + option(
            "--memory"@,
            text::view_of(*memory),
        ),
{
    let ghost before = text::views(argv@);
    match memory {
        Some(size) => push_option(argv, "--memory", size.as_str()),
        None => {},
    }
    assert(text::views(argv@) =~= before + option("--memory"@, text::view_of(*memory)));
}

/// An argv of words.
pub fn words(list: &[&str]) -> (r: Vec<String>)
    ensures
        r@.len() == list@.len(),
        forall|i: int| 0 <= i < r@.len() ==> (#[trigger] r@[i])@ == list@[i]@,
{
    let mut out: Vec<String> = Vec::new();
    let mut i: usize = 0;
    while i < list.len()
        invariant
            i <= list@.len(),
            out@.len() == i,
            forall|j: int| 0 <= j < i ==> (#[trigger] out@[j])@ == list@[j]@,
        decreases list.len() - i,
    {
        out.push(list[i].to_string());
        i = i + 1;
    }
    out
}

// ---------------------------------------------------------------------------
// Building
// ---------------------------------------------------------------------------

/// A `container build` invocation. The Dockerfile is not named: it is written
/// into `context` as `Dockerfile`, which is where the tool looks by default.
#[derive(Debug, PartialEq)]
pub struct BuildSpec {
    pub context: PathBuf,
    pub memory: Option<String>,
    pub tag: String,
}

/// A `BuildSpec`, its texts as sequences of characters.
#[verifier::ext_equal]
pub struct BuildSpecView {
    pub context: Seq<char>,
    pub memory: Option<Seq<char>>,
    pub tag: Seq<char>,
}

impl View for BuildSpec {
    type V = BuildSpecView;

    open spec fn view(&self) -> BuildSpecView {
        BuildSpecView {
            context: self.context@,
            memory: text::view_of(self.memory),
            tag: self.tag@,
        }
    }
}

impl BuildSpecView {
    /// What the tool is called with.
    pub open spec fn argv(self) -> Seq<Seq<char>> {
        seq!["build"@] + option("--memory"@, self.memory) + seq!["--tag"@, self.tag, self.context]
    }
}

impl Clone for BuildSpec {
    fn clone(&self) -> (r: Self)
        ensures
            r == *self,
    {
        BuildSpec {
            context: self.context.clone(),
            memory: copy_text(&self.memory),
            tag: self.tag.clone(),
        }
    }
}

impl BuildSpec {
    pub fn to_argv(&self) -> (r: Vec<String>)
        ensures
            text::views(r@) == self@.argv(),
    {
        let mut argv = words(&["build"]);
        assert(text::views(argv@) =~= seq!["build"@]);
        push_memory(&mut argv, &self.memory);
        push_option(&mut argv, "--tag", self.tag.as_str());
        push_word(&mut argv, self.context.as_str());
        assert(text::views(argv@) =~= self@.argv());
        argv
    }
}

// ---------------------------------------------------------------------------
// Attaching
// ---------------------------------------------------------------------------

/// A `container exec` invocation against an already-running container.
#[derive(Debug, PartialEq)]
pub struct ExecSpec {
    pub arguments: Vec<String>,
    pub env: Vec<EnvVar>,
    pub interactive: bool,
    pub name: String,
    pub tty: bool,
    pub workdir: Option<PathBuf>,
}

/// An `ExecSpec`, its texts as sequences of characters.
#[verifier::ext_equal]
pub struct ExecSpecView {
    pub arguments: Seq<Seq<char>>,
    pub env: Seq<EnvVarView>,
    pub interactive: bool,
    pub name: Seq<char>,
    pub tty: bool,
    pub workdir: Option<Seq<char>>,
}

impl View for ExecSpec {
    type V = ExecSpecView;

    open spec fn view(&self) -> ExecSpecView {
        ExecSpecView {
            arguments: text::views(self.arguments@),
            env: text::views(self.env@),
            interactive: self.interactive,
            name: self.name@,
            tty: self.tty,
            workdir: text::view_of(self.workdir),
        }
    }
}

impl ExecSpecView {
    /// What the tool is called with.
    pub open spec fn argv(self) -> Seq<Seq<char>> {
        seq!["exec"@] + options("--env"@, env_arguments(self.env)) + flag(
            "--interactive"@,
            self.interactive,
        ) + flag("--tty"@, self.tty) + option("--workdir"@, self.workdir) + seq![self.name]
            + self.arguments
    }
}

impl Clone for ExecSpec {
    fn clone(&self) -> (r: Self)
        ensures
            r@ == self@,
    {
        let r = ExecSpec {
            arguments: self.arguments.clone(),
            env: self.env.clone(),
            interactive: self.interactive,
            name: self.name.clone(),
            tty: self.tty,
            workdir: copy_path(&self.workdir),
        };
        assert(r.arguments@ =~= self.arguments@);
        assert(r.env@ =~= self.env@);
        r
    }
}

impl ExecSpec {
    pub fn to_argv(&self) -> (r: Vec<String>)
        ensures
            text::views(r@) == self@.argv(),
    {
        let mut argv = words(&["exec"]);
        assert(text::views(argv@) =~= seq!["exec"@]);
        push_env(&mut argv, &self.env);
        push_flag(&mut argv, "--interactive", self.interactive);
        push_flag(&mut argv, "--tty", self.tty);
        push_workdir(&mut argv, &self.workdir);
        let ghost before = text::views(argv@);
        push_word(&mut argv, self.name.as_str());
        assert(text::views(argv@) =~= before + seq![self.name@]);
        push_words(&mut argv, &self.arguments);
        argv
    }
}

// ---------------------------------------------------------------------------
// Running
// ---------------------------------------------------------------------------

/// A `container run` invocation. Mounts keep their declared order, which matters
/// when one mounted path nests inside another.
#[derive(Debug, PartialEq)]
pub struct RunSpec {
    pub arguments: Vec<String>,
    pub cpus: Option<u32>,
    pub detach: bool,
    pub env: Vec<EnvVar>,
    pub image: String,
    pub memory: Option<String>,
    pub mounts: Vec<Mount>,
    pub name: String,
    pub workdir: Option<PathBuf>,
}

/// A `RunSpec`, its texts as sequences of characters.
#[verifier::ext_equal]
pub struct RunSpecView {
    pub arguments: Seq<Seq<char>>,
    pub cpus: Option<u32>,
    pub detach: bool,
    pub env: Seq<EnvVarView>,
    pub image: Seq<char>,
    pub memory: Option<Seq<char>>,
    pub mounts: Seq<MountView>,
    pub name: Seq<char>,
    pub workdir: Option<Seq<char>>,
}

impl View for RunSpec {
    type V = RunSpecView;

    open spec fn view(&self) -> RunSpecView {
        RunSpecView {
            arguments: text::views(self.arguments@),
            cpus: self.cpus,
            detach: self.detach,
            env: text::views(self.env@),
            image: self.image@,
            memory: text::view_of(self.memory),
            mounts: text::views(self.mounts@),
            name: self.name@,
            workdir: text::view_of(self.workdir),
        }
    }
}

impl RunSpecView {
    /// What the tool is called with.
    pub open spec fn argv(self) -> Seq<Seq<char>> {
        seq!["run"@] + option(
            "--cpus"@,
            match self.cpus {
                Some(cpus) => Some(text::decimal(cpus as nat)),
                None => None,
            },
        ) + flag("--detach"@, self.detach) + options("--env"@, env_arguments(self.env)) + option(
            "--memory"@,
            self.memory,
        ) + seq!["--name"@, self.name] + options("--volume"@, mount_arguments(self.mounts))
            + option("--workdir"@, self.workdir) + seq![self.image] + self.arguments
    }
}

impl Clone for RunSpec {
    fn clone(&self) -> (r: Self)
        ensures
            r@ == self@,
    {
        let r = RunSpec {
            arguments: self.arguments.clone(),
            cpus: self.cpus,
            detach: self.detach,
            env: self.env.clone(),
            image: self.image.clone(),
            memory: copy_text(&self.memory),
            mounts: self.mounts.clone(),
            name: self.name.clone(),
            workdir: copy_path(&self.workdir),
        };
        assert(r.arguments@ =~= self.arguments@);
        assert(r.env@ =~= self.env@);
        assert(r.mounts@ =~= self.mounts@);
        r
    }
}

impl RunSpec {
    pub fn to_argv(&self) -> (r: Vec<String>)
        ensures
            text::views(r@) == self@.argv(),
    {
        let mut argv = words(&["run"]);
        assert(text::views(argv@) =~= seq!["run"@]);
        match self.cpus {
            Some(cpus) => push_option(
                &mut argv,
                "--cpus",
                text::decimal_text(cpus as u128).as_str(),
            ),
            None => {
                assert(text::views(argv@) =~= seq!["run"@] + option("--cpus"@, None));
            },
        }
        push_flag(&mut argv, "--detach", self.detach);
        push_env(&mut argv, &self.env);
        push_memory(&mut argv, &self.memory);
        push_option(&mut argv, "--name", self.name.as_str());
        push_volumes(&mut argv, &self.mounts);
        push_workdir(&mut argv, &self.workdir);
        let ghost before = text::views(argv@);
        push_word(&mut argv, self.image.as_str());
        assert(text::views(argv@) =~= before + seq![self.image@]);
        push_words(&mut argv, &self.arguments);
        argv
    }
}

// ---------------------------------------------------------------------------
// Laws
// ---------------------------------------------------------------------------

/// Mounts keep their order on the command line, wherever they stand in it.
pub proof fn law_mounts_keep_their_order(mounts: Seq<MountView>, i: int)
    requires
        0 <= i < mounts.len(),
    ensures
        options("--volume"@, mount_arguments(mounts)).len() == 2 * mounts.len(),
        options("--volume"@, mount_arguments(mounts))[2 * i] == "--volume"@,
        options("--volume"@, mount_arguments(mounts))[2 * i + 1] == mounts[i].shown(),
{
    lemma_options("--volume"@, mount_arguments(mounts), i);
}

proof fn lemma_options(name: Seq<char>, values: Seq<Seq<char>>, i: int)
    requires
        0 <= i < values.len(),
    ensures
        options(name, values).len() == 2 * values.len(),
        options(name, values)[2 * i] == name,
        options(name, values)[2 * i + 1] == values[i],
    decreases values.len(),
{
    let rest = values.drop_last();
    if i < rest.len() {
        lemma_options(name, rest, i);
        assert(rest[i] == values[i]);
    } else if rest.len() > 0 {
        lemma_options(name, rest, 0);
    }
}

/// Whether two words stand one after the other on a command line.
pub open spec fn has_pair(argv: Seq<Seq<char>>, name: Seq<char>, value: Seq<char>) -> bool {
    exists|k: int| 0 <= k < argv.len() - 1 && #[trigger] argv[k] == name && argv[k + 1] == value
}

proof fn lemma_pair(before: Seq<Seq<char>>, part: Seq<Seq<char>>, after: Seq<Seq<char>>, j: int)
    requires
        0 <= j < part.len() - 1,
    ensures
        has_pair(before + part + after, part[j], part[j + 1]),
{
    let whole = before + part + after;
    let k = before.len() + j;
    assert(whole[k] == part[j]);
    assert(whole[k + 1] == part[j + 1]);
}

/// A run says everything there is to say of its container, each thing once and
/// behind its own option, and ends with the image and what runs in it.
pub proof fn law_a_run_says_everything(spec: RunSpecView, i: int)
    ensures
        ({
            let argv = spec.argv();
            &&& argv[0] == "run"@
            &&& (seq![spec.image] + spec.arguments).is_suffix_of(argv)
            &&& has_pair(argv, "--name"@, spec.name)
            &&& spec.cpus matches Some(cpus) ==> has_pair(
                argv,
                "--cpus"@,
                text::decimal(cpus as nat),
            )
            &&& spec.memory matches Some(memory) ==> has_pair(argv, "--memory"@, memory)
            &&& spec.workdir matches Some(workdir) ==> has_pair(argv, "--workdir"@, workdir)
            &&& spec.detach ==> argv.contains("--detach"@)
            &&& 0 <= i < spec.mounts.len() ==> has_pair(
                argv,
                "--volume"@,
                spec.mounts[i].shown(),
            )
            &&& 0 <= i < spec.env.len() ==> has_pair(
                argv,
                "--env"@,
                match spec.env[i] {
                    EnvVarView::Inherit(name) => name,
                    EnvVarView::Assign { name, value } => name + "="@ + value,
                },
            )
            &&& argv.len() == 4 + spec.arguments.len() + 2 * spec.env.len() + 2 * spec.mounts.len()
                + (if spec.cpus is Some {
                2int
            } else {
                0int
            }) + (if spec.memory is Some {
                2int
            } else {
                0int
            }) + (if spec.workdir is Some {
                2int
            } else {
                0int
            }) + (if spec.detach {
                1int
            } else {
                0int
            })
        }),
{
    let cpus = option(
        "--cpus"@,
        match spec.cpus {
            Some(cpus) => Some(text::decimal(cpus as nat)),
            None => None,
        },
    );
    let detach = flag("--detach"@, spec.detach);
    let env = options("--env"@, env_arguments(spec.env));
    let memory = option("--memory"@, spec.memory);
    let name = seq!["--name"@, spec.name];
    let volumes = options("--volume"@, mount_arguments(spec.mounts));
    let workdir = option("--workdir"@, spec.workdir);
    lemma_options_len("--env"@, env_arguments(spec.env));
    lemma_options_len("--volume"@, mount_arguments(spec.mounts));
    if 0 <= i < spec.mounts.len() {
        lemma_options("--volume"@, mount_arguments(spec.mounts), i);
    }
    if 0 <= i < spec.env.len() {
        lemma_options("--env"@, env_arguments(spec.env), i);
    }
    lemma_run_parts(
        seq!["run"@],
        cpus,
        detach,
        env,
        memory,
        name,
        volumes,
        workdir,
        seq![spec.image],
        spec.arguments,
        2 * i,
    );
}

proof fn lemma_run_parts(
    start: Seq<Seq<char>>,
    cpus: Seq<Seq<char>>,
    detach: Seq<Seq<char>>,
    env: Seq<Seq<char>>,
    memory: Seq<Seq<char>>,
    name: Seq<Seq<char>>,
    volumes: Seq<Seq<char>>,
    workdir: Seq<Seq<char>>,
    image: Seq<Seq<char>>,
    arguments: Seq<Seq<char>>,
    j: int,
)
    ensures
        ({
            let argv = start + cpus + detach + env + memory + name + volumes + workdir + image
                + arguments;
            &&& start.len() == 1 ==> argv[0] == start[0]
            &&& (image + arguments).is_suffix_of(argv)
            &&& cpus.len() == 2 ==> has_pair(argv, cpus[0], cpus[1])
            &&& detach.len() == 1 ==> argv.contains(detach[0])
            &&& 0 <= j < env.len() - 1 ==> has_pair(argv, env[j], env[j + 1])
            &&& memory.len() == 2 ==> has_pair(argv, memory[0], memory[1])
            &&& name.len() == 2 ==> has_pair(argv, name[0], name[1])
            &&& 0 <= j < volumes.len() - 1 ==> has_pair(argv, volumes[j], volumes[j + 1])
            &&& workdir.len() == 2 ==> has_pair(argv, workdir[0], workdir[1])
            &&& argv.len() == start.len() + cpus.len() + detach.len() + env.len() + memory.len()
                + name.len() + volumes.len() + workdir.len() + image.len() + arguments.len()
        }),
{
    let a = start + cpus;
    let b = a + detach;
    let c = b + env;
    let d = c + memory;
    let e = d + name;
    let f = e + volumes;
    let g = f + workdir;
    let argv = g + image + arguments;
    assert(image + arguments =~= argv.subrange(g.len() as int, argv.len() as int));
    lemma_pair_within(g, image + arguments, argv, workdir, f.len() as int, 0);
    lemma_pair_within(g, image + arguments, argv, volumes, e.len() as int, j);
    lemma_pair_within(g, image + arguments, argv, name, d.len() as int, 0);
    lemma_pair_within(g, image + arguments, argv, memory, c.len() as int, 0);
    lemma_pair_within(g, image + arguments, argv, env, b.len() as int, j);
    lemma_pair_within(g, image + arguments, argv, cpus, start.len() as int, 0);
    if detach.len() == 1 {
        assert(argv[a.len() as int] == detach[0]);
    }
}

proof fn lemma_pair_within(
    front: Seq<Seq<char>>,
    back: Seq<Seq<char>>,
    argv: Seq<Seq<char>>,
    part: Seq<Seq<char>>,
    at: int,
    j: int,
)
    requires
        0 <= at <= front.len() - part.len(),
        argv.len() == front.len() + back.len(),
        forall|k: int| 0 <= k < front.len() ==> argv[k] == front[k],
        forall|k: int| 0 <= k < part.len() ==> front[at + k] == part[k],
    ensures
        0 <= j < part.len() - 1 ==> has_pair(argv, part[j], part[j + 1]),
{
    if 0 <= j < part.len() - 1 {
        assert(argv[at + j] == part[j]);
        assert(argv[at + (j + 1)] == part[j + 1]);
    }
}

proof fn lemma_options_len(name: Seq<char>, values: Seq<Seq<char>>)
    ensures
        options(name, values).len() == 2 * values.len(),
{
    if values.len() > 0 {
        lemma_options(name, values, 0);
    }
}

/// Attaching says everything there is to say of the process, and ends with the
/// container and what runs in it.
pub proof fn law_an_exec_says_everything(spec: ExecSpecView, i: int)
    ensures
        ({
            let argv = spec.argv();
            &&& argv[0] == "exec"@
            &&& (seq![spec.name] + spec.arguments).is_suffix_of(argv)
            &&& spec.workdir matches Some(workdir) ==> has_pair(argv, "--workdir"@, workdir)
            &&& spec.interactive ==> argv.contains("--interactive"@)
            &&& spec.tty ==> argv.contains("--tty"@)
            &&& 0 <= i < spec.env.len() ==> has_pair(
                argv,
                "--env"@,
                match spec.env[i] {
                    EnvVarView::Inherit(name) => name,
                    EnvVarView::Assign { name, value } => name + "="@ + value,
                },
            )
            &&& argv.len() == 2 + spec.arguments.len() + 2 * spec.env.len() + (
            if spec.workdir is Some {
                2int
            } else {
                0int
            }) + (if spec.interactive {
                1int
            } else {
                0int
            }) + (if spec.tty {
                1int
            } else {
                0int
            })
        }),
{
    let argv = spec.argv();
    let start = seq!["exec"@];
    let env = options("--env"@, env_arguments(spec.env));
    let interactive = flag("--interactive"@, spec.interactive);
    let tty = flag("--tty"@, spec.tty);
    let workdir = option("--workdir"@, spec.workdir);
    let end = seq![spec.name] + spec.arguments;
    lemma_options_len("--env"@, env_arguments(spec.env));
    assert(end =~= argv.subrange(argv.len() - end.len(), argv.len() as int));
    if spec.workdir is Some {
        assert(argv =~= (start + env + interactive + tty) + workdir + end);
        lemma_pair(start + env + interactive + tty, workdir, end, 0);
    }
    if spec.interactive {
        assert(argv[(start + env).len() as int] == "--interactive"@);
    }
    if spec.tty {
        assert(argv[(start + env + interactive).len() as int] == "--tty"@);
    }
    if 0 <= i < spec.env.len() {
        lemma_options("--env"@, env_arguments(spec.env), i);
        assert(argv =~= start + env + (interactive + tty + workdir + end));
        lemma_pair(start, env, interactive + tty + workdir + end, 2 * i);
    }
}

/// A build names the image it makes and what it is made from, and the memory it may
/// take where that is limited.
pub proof fn law_a_build_says_everything(spec: BuildSpecView)
    ensures
        spec.memory matches Some(memory) ==> spec.argv() == seq![
            "build"@,
            "--memory"@,
            memory,
            "--tag"@,
            spec.tag,
            spec.context,
        ],
        spec.memory is None ==> spec.argv() == seq!["build"@, "--tag"@, spec.tag, spec.context],
{
    if let Some(memory) = spec.memory {
        assert(spec.argv() =~= seq![
            "build"@,
            "--memory"@,
            memory,
            "--tag"@,
            spec.tag,
            spec.context,
        ]);
    } else {
        assert(spec.argv() =~= seq!["build"@, "--tag"@, spec.tag, spec.context]);
    }
}

} // verus!

//! Relaying declared host ports to the guest, one unix socket per port.
//!
//! The guest's own relay turns `localhost:<port>` into a connection to
//! `/run/compostbin/ports/<port>.sock`; this is the other half, which accepts
//! there and connects to the host's `127.0.0.1:<port>`. Nothing listens on a
//! network address, and no other container can reach a forwarded port.
use crate::apple_container::engine::{CallView, Engine, ReplyView};
use crate::apple_container::error::EngineError;
use crate::paths;
use crate::paths::PathBuf;
use crate::text;
use vstd::prelude::*;

verus! {

/// How long the relay waits for the container to be created after it binds, in
/// milliseconds.
pub const APPEAR_GRACE: u64 = 120_000;

/// How long a container may be absent before the relay takes it as gone for
/// good rather than restarting, in milliseconds.
pub const VANISH_GRACE: u64 = 30_000;

/// How often the relay asks whether its container is there, in milliseconds.
/// Far slower than the relay's own poll. Nothing waits on it: it only decides
/// when a relay nobody needs any more gives up.
pub const WATCH_INTERVAL: u64 = 2_000;

/// Loopback refuses at once; this only bounds a service that accepts nothing. In
/// milliseconds.
pub const CONNECT_TIMEOUT: u64 = 1_000;

pub const BUFFER_SIZE: usize = 16_384;

/// The guest end of the relay is `root:root` with this socket's mode copied
/// verbatim, and the session runs as a user: anything short of
/// world-accessible is refused inside the container. The session directory is
/// what confines these, not the socket mode.
pub const SOCKET_MODE: u32 = 0o666;

pub const SOCKET_SUFFIX: &'static str = ".sock";

/// The address of a service on the host.
#[derive(Debug, PartialEq, Eq)]
pub struct Upstream {
    pub host: String,
    pub port: u16,
}

impl Clone for Upstream {
    fn clone(&self) -> (r: Self)
        ensures
            r == *self,
    {
        Upstream { host: self.host.clone(), port: self.port }
    }
}

impl Upstream {
    /// `host:port`.
    pub open spec fn shown(&self) -> Seq<char> {
        self.host@ + ":"@ + text::decimal(self.port as nat)
    }

    /// `host:port`.
    pub fn to_string(&self) -> (r: String)
        ensures
            r@ == self.shown(),
    {
        let mut out = self.host.clone();
        out.append(":");
        out.append(text::decimal_text(self.port as u128).as_str());
        out
    }
}

/// One declared port: the socket the guest reaches through, and the host
/// service behind it.
#[derive(Debug, PartialEq)]
pub struct Forward {
    pub listen: PathBuf,
    pub upstream: Upstream,
}

impl Clone for Forward {
    fn clone(&self) -> (r: Self)
        ensures
            r == *self,
    {
        Forward { listen: self.listen.clone(), upstream: self.upstream.clone() }
    }
}

/// A `Forward`, its texts as sequences of characters.
#[verifier::ext_equal]
pub struct ForwardView {
    pub listen: Seq<char>,
    pub host: Seq<char>,
    pub port: u16,
}

impl View for Forward {
    type V = ForwardView;

    open spec fn view(&self) -> ForwardView {
        ForwardView {
            listen: self.listen@,
            host: self.upstream.host@,
            port: self.upstream.port,
        }
    }
}

/// The name of a port's socket.
pub open spec fn socket_name(port: u16) -> Seq<char> {
    text::decimal(port as nat) + ".sock"@
}

/// What relays a port of the host's loopback through a socket in a directory.
pub open spec fn loopback(directory: Seq<char>, port: u16) -> ForwardView {
    ForwardView {
        listen: paths::joined(directory, socket_name(port)),
        host: "127.0.0.1"@,
        port,
    }
}

impl Forward {
    /// The same port on both sides, which is all the manifest can say. The socket
    /// is named after the port so the guest can find it without being told.
    pub fn to_loopback(directory: &PathBuf, port: u16) -> (r: Self)
        ensures
            r@ == loopback(directory@, port),
    {
        let mut name = text::decimal_text(port as u128);
        name.append(SOCKET_SUFFIX);
        Forward {
            listen: directory.join(name.as_str()),
            upstream: Upstream { host: "127.0.0.1".to_string(), port },
        }
    }

    pub fn port(&self) -> (r: u16)
        ensures
            r == self.upstream.port,
    {
        self.upstream.port
    }
}

/// A port's socket name is one component.
pub proof fn lemma_socket_name(port: u16)
    ensures
        paths::is_name(socket_name(port)),
        !socket_name(port).contains('/'),
        socket_name(port) != seq!['.', '.'],
        socket_name(port).len() > 2,
{
    let name = socket_name(port);
    let digits = text::decimal(port as nat);
    text::lemma_decimal(port as nat);
    reveal_strlit(".sock");
    assert forall|i: int| 0 <= i < name.len() implies name[i] != '/' by {
        if i < digits.len() {
            assert(name[i] == digits[i]);
            assert(text::is_digit(digits[i]));
        } else {
            assert(name[i] == ".sock"@[i - digits.len()]);
        }
    }
}

/// What the relay has to say, left to the caller to print: the library does not
/// own the terminal.
#[derive(Debug, PartialEq)]
pub enum PortEvent {
    /// Bound, and so ready to be relayed into a container.
    Listening(Forward),
    /// Nothing answers upstream. Once per run of failures, since a client
    /// retrying against a server that is not up yet would flood the terminal.
    UpstreamRefused(Forward, String),
}

impl PortEvent {
    /// The sentence that reports the event.
    pub open spec fn sentence(&self) -> Seq<char> {
        match self {
            PortEvent::Listening(forward) => "forwarding port "@ + text::decimal(
                forward.upstream.port as nat,
            ),
            PortEvent::UpstreamRefused(forward, reason) => "nothing answers at "@
                + forward.upstream.shown() + ": "@ + reason@,
        }
    }

    /// The sentence that reports the event.
    pub fn to_string(&self) -> (r: String)
        ensures
            r@ == self.sentence(),
    {
        match self {
            PortEvent::Listening(forward) => {
                let mut out = "forwarding port ".to_string();
                out.append(text::decimal_text(forward.upstream.port as u128).as_str());
                out
            },
            PortEvent::UpstreamRefused(forward, reason) => {
                let mut out = "nothing answers at ".to_string();
                out.append(forward.upstream.to_string().as_str());
                out.append(": ");
                out.append(reason.as_str());
                out
            },
        }
    }
}

// ---------------------------------------------------------------------------
// Binding
// ---------------------------------------------------------------------------

/// What binding has come to: how many forwards are bound, and which is next.
#[derive(Debug, PartialEq)]
pub struct Binding {
    pub bound: usize,
    pub forwards: Vec<Forward>,
}

/// What follows an attempt to bind a forward.
#[derive(Debug, PartialEq)]
pub enum BindStep {
    /// This forward is bound: report it, and go on.
    Report(PortEvent),
    /// Binding gives up: every socket or none, since a container created with
    /// half its ports bound would forward half of them until it was recreated.
    GiveUp,
}

impl Binding {
    /// Whether no more forwards are bound than there are.
    pub open spec fn is_valid(&self) -> bool {
        self.bound <= self.forwards@.len()
    }

    pub fn bind_all(forwards: Vec<Forward>) -> (r: Self)
        ensures
            r.bound == 0,
            r.forwards@ == forwards@,
            r.is_valid(),
    {
        Binding { bound: 0, forwards }
    }

    /// The forward to bind next; `None` once all are bound.
    pub fn next(&self) -> (r: Option<&Forward>)
        requires
            self.is_valid(),
        ensures
            match r {
                Some(forward) => self.bound < self.forwards@.len() && *forward
                    == self.forwards@[self.bound as int],
                None => self.bound == self.forwards@.len(),
            },
    {
        if self.bound < self.forwards.len() {
            Some(&self.forwards[self.bound])
        } else {
            None
        }
    }

    /// What follows the attempt to bind the next forward.
    pub fn attempted(&mut self, succeeded: bool) -> (r: BindStep)
        requires
            old(self).is_valid(),
            old(self).bound < old(self).forwards@.len(),
        ensures
            final(self).forwards@ == old(self).forwards@,
            final(self).is_valid(),
            succeeded ==> final(self).bound == old(self).bound + 1 && r == BindStep::Report(
                PortEvent::Listening(old(self).forwards@[old(self).bound as int]),
            ),
            !succeeded ==> final(self).bound == old(self).bound && r == BindStep::GiveUp,
    {
        if succeeded {
            let count: usize = self.forwards.len();
            let forward = self.forwards[self.bound].clone();
            assert(self.bound < count);
            self.bound = self.bound + 1;
            BindStep::Report(PortEvent::Listening(forward))
        } else {
            BindStep::GiveUp
        }
    }
}

// ---------------------------------------------------------------------------
// Watching the container
// ---------------------------------------------------------------------------

/// What the relay knows of the container its sockets serve: whether it was ever
/// seen, and since when it is waited for.
#[derive(Debug, PartialEq)]
pub struct Watch {
    pub appeared: bool,
    pub waiting_since: u64,
}

/// How long has passed, or nothing where the clock went back.
pub open spec fn elapsed(since: u64, now: u64) -> int {
    if now >= since {
        now - since
    } else {
        0
    }
}

/// What taking note of a container comes to: it is gone for good where it is not
/// there, and was waited for longer than the grace for that. Where it is there, or
/// the engine could not say, the wait begins anew.
pub open spec fn is_noted(
    before: Watch,
    running: Option<bool>,
    now: u64,
    appear: u64,
    vanish: u64,
    after: Watch,
    gone: bool,
) -> bool {
    if running == Some(false) {
        after == before && gone == (elapsed(before.waiting_since, now) > (if before.appeared {
            vanish
        } else {
            appear
        }))
    } else {
        !gone && after == (Watch { appeared: true, waiting_since: now })
    }
}

impl Watch {
    pub fn new(now: u64) -> (r: Self)
        ensures
            !r.appeared,
            r.waiting_since == now,
    {
        Watch { appeared: false, waiting_since: now }
    }

    /// Takes note of whether the container is there (`None` where the engine could
    /// not say, which counts as there), and answers whether it is gone for good.
    ///
    /// Two graces, because neither edge is instant: the container does not exist
    /// yet when the relay binds (it cannot, the sockets have to be there first),
    /// and a restart takes it away and puts it back, which must not be read as the
    /// session ending.
    pub fn watch(&mut self, running: Option<bool>, now: u64, appear: u64, vanish: u64) -> (r: bool)
        ensures
            is_noted(*old(self), running, now, appear, vanish, *final(self), r),
    {
        let there = match running {
            Some(running) => running,
            None => true,
        };
        if there {
            self.appeared = true;
            self.waiting_since = now;
            return false;
        }
        let grace: u64 = if self.appeared {
            vanish
        } else {
            appear
        };
        let waited: u64 = if now >= self.waiting_since {
            now - self.waiting_since
        } else {
            0
        };
        waited > grace
    }

    /// Asks an engine whether it has the container, takes note of that, and answers
    /// whether the container is gone for good.
    pub fn look<E: Engine>(
        &mut self,
        container: &str,
        engine: &mut E,
        now: u64,
        appear: u64,
        vanish: u64,
    ) -> (r: bool)
        ensures
            final(engine).log().len() == old(engine).log().len() + 1,
            final(engine).log().drop_last() == old(engine).log(),
            final(engine).log().last().0 == CallView::Containers,
            final(engine).log().last().1 is Names,
            is_noted(
                *old(self),
                said(container@, final(engine).log().last().1),
                now,
                appear,
                vanish,
                *final(self),
                r,
            ),
    {
        let ghost before = engine.log();
        let names = engine.containers();
        assert(engine.log().drop_last() =~= before);
        self.watch(listed(container, &names), now, appear, vanish)
    }
}

/// Whether an engine has a container, as it said when it was asked for all it has;
/// `None` where it could not say.
pub open spec fn said(container: Seq<char>, reply: ReplyView) -> Option<bool> {
    match reply {
        ReplyView::Names(Ok(names)) => Some(names.contains(container)),
        _ => None,
    }
}

/// Whether a container is among those an engine listed; `None` where it could list
/// none.
pub fn listed(container: &str, names: &Result<Vec<String>, EngineError>) -> (r: Option<bool>)
    ensures
        r == (match *names {
            Ok(all) => Some(text::views(all@).contains(container@)),
            Err(_) => None,
        }),
{
    match names {
        Ok(all) => Some(text::lists(all, container)),
        Err(_) => None,
    }
}

// ---------------------------------------------------------------------------
// Relaying
// ---------------------------------------------------------------------------

/// Whether the last connection to a forward's service was refused.
#[derive(Clone, Copy, Debug, PartialEq, Eq, Structural)]
pub struct Refused {
    pub refused: bool,
}

impl Refused {
    pub fn new() -> (r: Self)
        ensures
            !r.refused,
    {
        Refused { refused: false }
    }

    /// Takes note of a connection's outcome: what to report of it. A refused
    /// connection is reported once, until one succeeds again.
    pub fn connect(&mut self, forward: Forward, failure: Option<String>) -> (r: Option<PortEvent>)
        ensures
            final(self).refused == (failure is Some),
            r == (match failure {
                Some(reason) => if old(self).refused {
                    None
                } else {
                    Some(PortEvent::UpstreamRefused(forward, reason))
                },
                None => None,
            }),
    {
        match failure {
            None => {
                self.refused = false;
                None
            },
            Some(reason) => {
                let reported = self.refused;
                self.refused = true;
                if reported {
                    None
                } else {
                    Some(PortEvent::UpstreamRefused(forward, reason))
                }
            },
        }
    }
}

/// How a read or a write of a stream failed.
#[derive(Clone, Copy, Debug, PartialEq, Eq, Structural)]
pub enum Failure {
    Interrupted,
    TimedOut,
    WouldBlock,
    Other,
}

/// A timeout is a poll, not a failure.
pub fn waiting(failure: Failure) -> (r: bool)
    ensures
        r == (failure != Failure::Other),
{
    match failure {
        Failure::Interrupted => true,
        Failure::TimedOut => true,
        Failure::WouldBlock => true,
        Failure::Other => false,
    }
}

/// What came of reading from one end of a connection.
#[derive(Clone, Copy, Debug, PartialEq, Eq, Structural)]
pub enum ReadOutcome {
    /// So many bytes; none at the end.
    Read(usize),
    Failed(Failure),
}

/// What one direction of a connection does next.
#[derive(Clone, Copy, Debug, PartialEq, Eq, Structural)]
pub enum Splice {
    /// It sends so many bytes on.
    Send(usize),
    /// It reads again.
    Again,
    /// It passes the end on, so a half-close reaches the other side.
    End,
}

/// One direction, until the end, an error, or `stopped`.
pub fn splice(outcome: ReadOutcome, stopped: bool) -> (r: Splice)
    ensures
        r == (match outcome {
            ReadOutcome::Read(read) => if read == 0 {
                Splice::End
            } else {
                Splice::Send(read)
            },
            ReadOutcome::Failed(failure) => if failure == Failure::Other || stopped {
                Splice::End
            } else {
                Splice::Again
            },
        }),
{
    match outcome {
        ReadOutcome::Read(read) => {
            if read == 0 {
                Splice::End
            } else {
                Splice::Send(read)
            }
        },
        ReadOutcome::Failed(failure) => {
            if !waiting(failure) || stopped {
                Splice::End
            } else {
                Splice::Again
            }
        },
    }
}

/// What came of writing to one end of a connection.
#[derive(Clone, Copy, Debug, PartialEq, Eq, Structural)]
pub enum WriteOutcome {
    /// So many bytes; none where the other side is gone.
    Wrote(usize),
    Failed(Failure),
}

/// How much of some data is still to be sent.
#[derive(Clone, Copy, Debug, PartialEq, Eq, Structural)]
pub enum Sending {
    /// From this offset on.
    From(usize),
    /// All of it is sent.
    Complete,
    /// The other side takes no more.
    Broken,
}

/// Sends all of some data, except that a stalled peer is waited on a poll at a
/// time, so `stopped` still ends it.
pub fn send(offset: usize, len: usize, outcome: WriteOutcome, stopped: bool) -> (r: Sending)
    requires
        offset < len,
        outcome matches WriteOutcome::Wrote(written) ==> written <= len - offset,
    ensures
        r == (match outcome {
            WriteOutcome::Wrote(written) => if written == 0 {
                Sending::Broken
            } else if offset + written == len {
                Sending::Complete
            } else {
                Sending::From((offset + written) as usize)
            },
            WriteOutcome::Failed(failure) => if failure == Failure::Other || stopped {
                Sending::Broken
            } else {
                Sending::From(offset)
            },
        }),
{
    match outcome {
        WriteOutcome::Wrote(written) => {
            if written == 0 {
                Sending::Broken
            } else if offset + written == len {
                Sending::Complete
            } else {
                Sending::From(offset + written)
            }
        },
        WriteOutcome::Failed(failure) => {
            if !waiting(failure) || stopped {
                Sending::Broken
            } else {
                Sending::From(offset)
            }
        },
    }
}

/// Different ports have different sockets.
pub proof fn law_sockets_are_named_apart(directory: Seq<char>, a: u16, b: u16)
    requires
        directory.len() > 0,
        a != b,
    ensures
        !paths::same_place(loopback(directory, a).listen, loopback(directory, b).listen),
{
    let x = socket_name(a);
    let y = socket_name(b);
    lemma_socket_name(a);
    lemma_socket_name(b);
    paths::lemma_joined_name(directory, x);
    paths::lemma_joined_name(directory, y);
    if paths::same_place(loopback(directory, a).listen, loopback(directory, b).listen) {
        let stem = paths::components(directory);
        assert(stem.push(x).last() == stem.push(y).last());
        let p = text::decimal(a as nat);
        let q = text::decimal(b as nat);
        assert(p =~= x.take(x.len() - ".sock"@.len()));
        assert(q =~= y.take(y.len() - ".sock"@.len()));
        text::lemma_decimal_injective(a as nat, b as nat);
    }
}

/// A container that an engine cannot be asked about is never taken as gone.
pub proof fn law_an_engine_that_cannot_say_ends_no_relay(
    before: Watch,
    now: u64,
    appear: u64,
    vanish: u64,
    after: Watch,
    gone: bool,
)
    requires
        is_noted(before, None, now, appear, vanish, after, gone),
    ensures
        !gone,
        after.appeared,
{
}

/// A container that is seen starts the wait anew. One that is not is gone exactly
/// when more time has passed since than its grace: that for a container to appear,
/// until it first did, and from then on that for one to come back.
pub proof fn law_a_container_is_gone_once_its_grace_is_over(
    before: Watch,
    running: bool,
    now: u64,
    appear: u64,
    vanish: u64,
    after: Watch,
    gone: bool,
)
    requires
        is_noted(before, Some(running), now, appear, vanish, after, gone),
    ensures
        running ==> !gone && after.appeared && after.waiting_since == now,
        !running ==> after == before,
        !running && before.appeared ==> (gone <==> now > before.waiting_since + vanish),
        !running && !before.appeared ==> (gone <==> now > before.waiting_since + appear),
{
}

/// An engine has a container exactly where it lists it; one that lists none cannot
/// say.
pub proof fn law_an_engine_has_what_it_lists(container: Seq<char>, names: Seq<Seq<char>>)
    ensures
        said(container, ReplyView::Names(Ok(names))) == Some(
            exists|i: int| 0 <= i < names.len() && #[trigger] names[i] == container,
        ),
{
    if names.contains(container) {
        let i = choose|i: int| 0 <= i < names.len() && names[i] == container;
        assert(names[i] == container);
    }
}

/// A port is relayed to the same port of the host's loopback, through a socket in
/// the given directory that is called after it.
pub proof fn law_a_port_keeps_its_number(directory: Seq<char>, port: u16)
    ensures
        loopback(directory, port).port == port,
        loopback(directory, port).host == "127.0.0.1"@,
        loopback(directory, port).listen == paths::joined(
            directory,
            text::decimal(port as nat) + ".sock"@,
        ),
{
}

/// What is said of a port names it, and where nothing answers, why.
pub proof fn law_port_events_name_the_port(forward: Forward, reason: String)
    ensures
        text::decimal(forward.upstream.port as nat).is_suffix_of(
            PortEvent::Listening(forward).sentence(),
        ),
        text::contains_text(
            PortEvent::UpstreamRefused(forward, reason).sentence(),
            forward.upstream.host@ + ":"@ + text::decimal(forward.upstream.port as nat),
        ),
        reason@.is_suffix_of(PortEvent::UpstreamRefused(forward, reason).sentence()),
{
    let listening = PortEvent::Listening(forward).sentence();
    let number = text::decimal(forward.upstream.port as nat);
    assert(number =~= listening.subrange(listening.len() - number.len(), listening.len() as int));
    let refused = PortEvent::UpstreamRefused(forward, reason).sentence();
    let shown = forward.upstream.host@ + ":"@ + number;
    let from = "nothing answers at "@.len() as int;
    assert(refused.subrange(from, from + shown.len()) =~= shown);
    assert(reason@ =~= refused.subrange(refused.len() - reason@.len(), refused.len() as int));
}

/// One direction of a connection passes on every byte it reads. It ends at the end,
/// at an error, and where it would have to wait though it was stopped, and nowhere
/// else.
pub proof fn law_a_connection_passes_on_what_it_reads(
    outcome: ReadOutcome,
    stopped: bool,
    next: Splice,
)
    requires
        call_ensures(splice, (outcome, stopped), next),
    ensures
        outcome matches ReadOutcome::Read(read) ==> read > 0 ==> next == Splice::Send(read),
        next == Splice::End <==> outcome == ReadOutcome::Read(0) || outcome
            == ReadOutcome::Failed(Failure::Other) || (outcome is Failed && stopped),
{
}

/// What is sent is sent to its end: each write goes on where the last one stopped, a
/// peer that stalls is waited for, and all is sent once no byte is left.
pub proof fn law_sending_goes_on_where_it_stopped(
    offset: usize,
    len: usize,
    outcome: WriteOutcome,
    stopped: bool,
    next: Sending,
)
    requires
        offset < len,
        outcome matches WriteOutcome::Wrote(written) ==> written <= len - offset,
        call_ensures(send, (offset, len, outcome, stopped), next),
    ensures
        outcome matches WriteOutcome::Wrote(written) ==> {
            &&& next == Sending::Complete <==> written > 0 && offset + written == len
            &&& next == Sending::Broken <==> written == 0
            &&& next matches Sending::From(from) ==> from == offset + written
        },
        outcome matches WriteOutcome::Failed(failure) ==> {
            &&& next == Sending::Broken <==> stopped || failure == Failure::Other
            &&& next matches Sending::From(from) ==> from == offset
            &&& next != Sending::Complete
        },
{
}

/// A service that does not answer is reported once, and again only after one
/// connection to it has succeeded.
pub proof fn law_a_run_of_refusals_is_reported_once(
    refused: &mut Refused,
    forward: Forward,
    failure: Option<String>,
    event: Option<PortEvent>,
)
    requires
        call_ensures(Refused::connect, (refused, forward, failure), event),
    ensures
        event is Some <==> failure is Some && !old(refused).refused,
        event matches Some(event) ==> event == PortEvent::UpstreamRefused(forward, failure->0),
        final(refused).refused <==> failure is Some,
{
}

/// Every forward is bound and reported in turn, until one cannot be.
pub proof fn law_forwards_are_bound_one_by_one(
    binding: &mut Binding,
    succeeded: bool,
    step: BindStep,
)
    requires
        old(binding).is_valid(),
        old(binding).bound < old(binding).forwards@.len(),
        call_ensures(Binding::attempted, (binding, succeeded), step),
    ensures
        final(binding).forwards@ == old(binding).forwards@,
        succeeded <==> final(binding).bound == old(binding).bound + 1,
        !succeeded <==> step == BindStep::GiveUp,
        step matches BindStep::Report(event) ==> event == PortEvent::Listening(
            old(binding).forwards@[old(binding).bound as int],
        ),
{
}

} // verus!

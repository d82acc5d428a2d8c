//! Discarding what a session keeps on the host.
use crate::assistant;
use crate::engine::engine::{CallView, Engine, ReplyView};
use crate::error::SessionError;
use crate::paths;
use crate::paths::PathBuf;
use crate::session::Session;
use crate::text;
use vstd::prelude::*;

verus! {

/// How a path is discarded.
///
/// Every transient path a session keeps is also a mount source, and a running
/// container's mount is attached to the inode it was created with: a directory
/// removed and recreated at the same path is never reattached, so the guest is
/// left holding one that nothing writes to any more. Emptying is the only kind
/// of cleaning a live mount survives.
#[derive(Clone, Copy, Debug, PartialEq, Eq, Structural)]
pub enum Manner {
    /// Empty the spool's directories, and keep them.
    Spool,
    /// Empty a directory without unlinking it, or remove what is not one.
    Clear,
    /// Remove the directory whole.
    Remove,
}

/// A path to discard.
#[derive(Debug, PartialEq)]
pub struct Discarded {
    pub path: PathBuf,
    pub manner: Manner,
}

/// A `Discarded`, its path as a sequence of characters.
#[verifier::ext_equal]
pub struct DiscardedView {
    pub path: Seq<char>,
    pub manner: Manner,
}

impl View for Discarded {
    type V = DiscardedView;

    open spec fn view(&self) -> DiscardedView {
        DiscardedView { path: self.path@, manner: self.manner }
    }
}

/// How one entry of a file tree is removed.
#[derive(Clone, Copy, Debug, PartialEq, Eq, Structural)]
pub enum Removal {
    /// The entry itself.
    File,
    /// The directory, and what it holds.
    Tree,
    /// What the directory holds, not the directory.
    Contents,
}

/// How a path that is cleared is removed, given whether it is a directory. A
/// symlink is none: it is removed rather than followed, so a link planted where a
/// mount source belongs cannot make this clear something else.
pub fn clear(is_directory: bool) -> (r: Removal)
    ensures
        r == (if is_directory {
            Removal::Contents
        } else {
            Removal::File
        }),
{
    if is_directory {
        Removal::Contents
    } else {
        Removal::File
    }
}

/// How an entry of a directory that is cleared is removed.
pub fn clear_entry(is_directory: bool) -> (r: Removal)
    ensures
        r == (if is_directory {
            Removal::Tree
        } else {
            Removal::File
        }),
{
    if is_directory {
        Removal::Tree
    } else {
        Removal::File
    }
}

/// What is discarded of some paths: those that are there.
pub open spec fn those_present(all: Seq<DiscardedView>, present: Seq<bool>) -> Seq<DiscardedView>
    decreases all.len(),
{
    if all.len() == 0 {
        seq![]
    } else {
        let rest = those_present(all.drop_last(), present);
        if present[all.len() - 1] {
            rest.push(all.last())
        } else {
            rest
        }
    }
}

impl Session {
    /// What `clean` discards, of what is there.
    pub open spec fn disposable(&self, everything: bool) -> Seq<DiscardedView> {
        if everything {
            seq![DiscardedView { path: self.state(), manner: Manner::Remove }]
        } else {
            seq![
                DiscardedView { path: self.kept("host"@), manner: Manner::Spool },
                DiscardedView { path: self.kept("ports"@), manner: Manner::Clear },
                DiscardedView { path: self.kept("ports.log"@), manner: Manner::Clear },
                DiscardedView { path: self.kept("managed"@), manner: Manner::Clear },
            ]
        }
    }

    /// What `clean` would discard, in order, wherever it is there: state
    /// meaningless once the container is gone. Not the assistant's home, which holds the
    /// conversation `--continue` reattaches to, unless everything is to go.
    pub fn cleanable(&self, everything: bool) -> (r: Vec<Discarded>)
        ensures
            text::views(r@) == self.disposable(everything),
    {
        let mut out: Vec<Discarded> = Vec::new();
        if everything {
            out.push(Discarded { path: self.state_dir(), manner: Manner::Remove });
        } else {
            out.push(Discarded { path: self.host_spool(), manner: Manner::Spool });
            out.push(Discarded { path: self.port_sockets(), manner: Manner::Clear });
            out.push(Discarded { path: self.ports_log(), manner: Manner::Clear });
            out.push(Discarded { path: self.managed_settings(), manner: Manner::Clear });
        }
        assert(text::views(out@) =~= self.disposable(everything));
        out
    }

    /// Empties this session's transient state, and with `everything` removes the
    /// session directory whole: what to discard, given which of `cleanable` is
    /// there. Missing paths are not an error: `clean` exists because an earlier
    /// exit may not have run.
    ///
    /// Emptied rather than removed: the container may still be running, and each
    /// of these paths is a mount source. `everything` is the exception: it
    /// discards the conversation, so the session is over by definition.
    pub fn clean(&self, everything: bool, present: &Vec<bool>) -> (r: Vec<Discarded>)
        requires
            present@.len() == self.disposable(everything).len(),
        ensures
            text::views(r@) == those_present(self.disposable(everything), present@),
    {
        let all = self.cleanable(everything);
        let ghost whole = text::views(all@);
        let mut out: Vec<Discarded> = Vec::new();
        let mut i: usize = 0;
        assert(text::views(out@) =~= those_present(whole.take(0), present@));
        while i < all.len()
            invariant
                i <= all@.len(),
                all@.len() == present@.len(),
                whole == text::views(all@),
                text::views(out@) == those_present(whole.take(i as int), present@),
            decreases all.len() - i,
        {
            assert(whole.take(i + 1).drop_last() =~= whole.take(i as int));
            assert(whole.take(i + 1).last() == all@[i as int]@);
            if present[i] {
                let item = Discarded { path: all[i].path.clone(), manner: all[i].manner };
                proof {
                    text::lemma_views_push(out@, item);
                }
                out.push(item);
            }
            i = i + 1;
        }
        assert(whole.take(i as int) =~= whole);
        out
    }

    /// What the `run` that created the container clears when the assistant exits: only
    /// the spool, so nothing claimed outlives the agent that claimed it.
    ///
    /// Emptied rather than removed: until that process exits the container still
    /// holds the mount. The rest is left for the next create, which rebinds the
    /// sockets and rewrites the managed settings anyway.
    pub fn clean_after_exit(&self, present: bool) -> (r: Vec<Discarded>)
        ensures
            text::views(r@) == (if present {
                seq![DiscardedView { path: self.kept("host"@), manner: Manner::Spool }]
            } else {
                Seq::empty()
            }),
    {
        let mut out: Vec<Discarded> = Vec::new();
        if present {
            out.push(Discarded { path: self.host_spool(), manner: Manner::Spool });
            assert(text::views(out@) =~= seq![
                DiscardedView { path: self.kept("host"@), manner: Manner::Spool },
            ]);
        } else {
            assert(text::views(out@) =~= Seq::empty());
        }
        out
    }

    /// Whether the container is up, and so whether `run` will attach rather than
    /// create. Anything whose work belongs to creation (binding the port sockets,
    /// above all) must ask first.
    pub fn is_running<E: Engine>(&self, engine: &mut E) -> (r: Result<bool, SessionError>)
        ensures
            final(engine).log().len() == old(engine).log().len() + 1,
            final(engine).log().drop_last() == old(engine).log(),
            final(engine).log().last().0 == CallView::IsRunning(self.container()),
            final(engine).log().last().1 matches ReplyView::IsRunning(reply) && match reply {
                Ok(running) => r == Ok::<bool, SessionError>(running),
                Err(error) => r is Err && r->Err_0 is Engine && r->Err_0->Engine_0@ == error,
            },
    {
        let ghost before = engine.log();
        let asked = engine.is_running(self.container_name().as_str());
        assert(engine.log().drop_last() =~= before);
        match asked {
            Ok(running) => Ok(running),
            Err(error) => Err(SessionError::from(error)),
        }
    }
}

// ---------------------------------------------------------------------------
// Laws
// ---------------------------------------------------------------------------

/// A name of what a session keeps is one component of a path.
proof fn lemma_kept(session: &Session, name: Seq<char>)
    requires
        paths::is_name(name),
        !name.contains('/'),
    ensures
        paths::components(session.kept(name)) == paths::components(session.state()).push(name),
{
    reveal_strlit("compostbin-");
    assert(session.container().len() > 0);
    paths::lemma_joined_name(session.state(), name);
}

/// Cleaning keeps the conversation, unless everything is to go: nothing that is
/// cleared is the assistant's home, holds it, or lies in it.
pub proof fn law_cleaning_keeps_the_conversation(session: &Session, i: int)
    requires
        assistant::is_word(session.assistant@),
        session.manifest.claude.home is None,
        0 <= i < session.disposable(false).len(),
    ensures
        !paths::within(session.home(), session.disposable(false)[i].path),
        !paths::within(session.disposable(false)[i].path, session.home()),
{
    reveal_strlit("host");
    reveal_strlit("ports");
    reveal_strlit("ports.log");
    reveal_strlit("managed");
    reveal_strlit("-home");
    let name = assistant::kept_home(session.assistant@);
    assert(name.last() == 'e');
    assert(!name.contains('/'));
    lemma_kept(session, "host"@);
    lemma_kept(session, "ports"@);
    lemma_kept(session, "ports.log"@);
    lemma_kept(session, "managed"@);
    lemma_kept(session, name);
    let stem = paths::components(session.state());
    let home = paths::components(session.home());
    let other = paths::components(session.disposable(false)[i].path);
    assert(home.last().last() == 'e');
    assert(other.last().last() != 'e');
    assert(home.len() == other.len());
    if other.is_prefix_of(home) || home.is_prefix_of(other) {
        assert(home[stem.len() as int] == other[stem.len() as int]);
    }
}

/// What is emptied after the assistant exits is the spool, which a container that still
/// runs keeps its mount of: nothing is unlinked.
pub proof fn law_cleaning_unlinks_no_mount(session: &Session, i: int)
    requires
        0 <= i < session.disposable(false).len(),
    ensures
        session.disposable(false)[i].manner != Manner::Remove,
{
}

/// Cleaning clears everything that means nothing once the container is gone: the
/// spool, the sockets, their log and the managed settings; and with everything, the
/// session's whole directory, once.
pub proof fn law_cleaning_clears_all_that_is_transient(session: &Session)
    ensures
        ({
            let some = session.disposable(false);
            let all = session.disposable(true);
            &&& some.contains(
                DiscardedView { path: session.kept("host"@), manner: Manner::Spool },
            )
            &&& some.contains(
                DiscardedView { path: session.kept("ports"@), manner: Manner::Clear },
            )
            &&& some.contains(
                DiscardedView { path: session.kept("ports.log"@), manner: Manner::Clear },
            )
            &&& some.contains(
                DiscardedView { path: session.kept("managed"@), manner: Manner::Clear },
            )
            &&& some.len() == 4
            &&& all.len() == 1 && all[0].path == session.state() && all[0].manner
                == Manner::Remove
        }),
{
    let some = session.disposable(false);
    assert(some[0].manner == Manner::Spool);
    assert(some[1].manner == Manner::Clear);
    assert(some[2].manner == Manner::Clear);
    assert(some[3].manner == Manner::Clear);
}

/// Of what may be discarded, exactly what is there is.
pub proof fn law_what_is_there_is_discarded(
    all: Seq<DiscardedView>,
    present: Seq<bool>,
    item: DiscardedView,
)
    requires
        present.len() == all.len(),
    ensures
        those_present(all, present).contains(item) <==> exists|i: int|
            0 <= i < all.len() && present[i] && #[trigger] all[i] == item,
        those_present(all, present).len() <= all.len(),
{
    lemma_those_present(all, present, item);
}

proof fn lemma_those_present(all: Seq<DiscardedView>, present: Seq<bool>, item: DiscardedView)
    requires
        all.len() <= present.len(),
    ensures
        those_present(all, present).contains(item) <==> exists|i: int|
            0 <= i < all.len() && present[i] && #[trigger] all[i] == item,
        those_present(all, present).len() <= all.len(),
    decreases all.len(),
{
    if all.len() > 0 {
        let rest = all.drop_last();
        let shorter = those_present(rest, present);
        let whole = those_present(all, present);
        lemma_those_present(rest, present, item);
        assert(all[all.len() - 1] == all.last());
        if shorter.contains(item) {
            let k = choose|k: int| 0 <= k < shorter.len() && shorter[k] == item;
            assert(whole[k] == item);
            let i = choose|i: int| 0 <= i < rest.len() && present[i] && #[trigger] rest[i] == item;
            assert(all[i] == item);
        }
        if present[all.len() - 1] && all.last() == item {
            assert(whole[whole.len() - 1] == item);
        }
        if whole.contains(item) && !shorter.contains(item) {
            let k = choose|k: int| 0 <= k < whole.len() && whole[k] == item;
            assert(k == whole.len() - 1) by {
                if k < shorter.len() {
                    assert(shorter[k] == item);
                }
            }
        }
        if exists|i: int| 0 <= i < all.len() && present[i] && #[trigger] all[i] == item {
            let i = choose|i: int| 0 <= i < all.len() && present[i] && #[trigger] all[i] == item;
            if i < rest.len() {
                assert(rest[i] == item);
            }
        }
    }
}

/// What is cleared keeps its directory and loses what is in it; whatever is no
/// directory, a link too, is removed itself.
pub proof fn law_clearing_follows_no_link(is_directory: bool, whole: Removal, entry: Removal)
    requires
        call_ensures(clear, (is_directory,), whole),
        call_ensures(clear_entry, (is_directory,), entry),
    ensures
        whole == Removal::Contents <==> is_directory,
        entry == Removal::Tree <==> is_directory,
        !is_directory ==> whole == Removal::File && entry == Removal::File,
{
}

} // verus!

//! The host's own assistant, copied into the session's assistant home.
//!
//! Not the token, which is `credentials`, and not history or projects, which
//! belong to the session. Only what the user maintains once, on the host, and
//! expects to find in every container.
use crate::assistant;
use crate::assistant::Assistant;
use crate::paths;
use crate::paths::PathBuf;
use crate::text;
use vstd::prelude::*;

verus! {

/// What every session gets besides the user's house style: their settings and
/// their skills. Not configurable and never named in a manifest, because this is
/// the user's assistant rather than a per-project decision.
pub const HOST_CLAUDE_SETTINGS: [&'static str; 2] = ["settings.json", "skills"];

/// Deep enough for any skill tree, shallow enough that a symlink loop there
/// ends the copy instead of filling the disk.
pub const MAX_DEPTH: usize = 32;

/// What every session gets.
pub open spec fn baseline(name: Seq<char>) -> Seq<Seq<char>> {
    seq![assistant::guide(name), "settings.json"@, "skills"@]
}

/// Names, with those added that are not among them yet.
pub open spec fn merged(names: Seq<Seq<char>>, extra: Seq<Seq<char>>) -> Seq<Seq<char>>
    decreases extra.len(),
{
    if extra.len() == 0 {
        names
    } else {
        let rest = merged(names, extra.drop_last());
        if rest.contains(extra.last()) {
            rest
        } else {
            rest.push(extra.last())
        }
    }
}

/// Whether a name stays in the directory it is joined onto, and names something
/// there rather than the directory itself.
pub open spec fn stays_inside(name: Seq<char>) -> bool {
    name.len() > 0 && !name.contains('/') && name != "."@ && name != ".."@
}

/// The names that stay inside.
pub open spec fn inside(names: Seq<Seq<char>>) -> Seq<Seq<char>>
    decreases names.len(),
{
    if names.len() == 0 {
        seq![]
    } else {
        let rest = inside(names.drop_last());
        if stays_inside(names.last()) {
            rest.push(names.last())
        } else {
            rest
        }
    }
}

/// What is shared with a session: what every session gets, then what the
/// manifest adds, each once, but nothing that would lead elsewhere.
pub open spec fn shared_names(name: Seq<char>, extra: Seq<Seq<char>>) -> Seq<Seq<char>> {
    inside(merged(baseline(name), extra))
}

fn leads_elsewhere(name: &str) -> (r: bool)
    ensures
        r == !stays_inside(name@),
{
    if name.unicode_len() == 0 || text::same(name, ".") || text::same(name, "..") {
        return true;
    }
    let chars = text::chars_of(name);
    let mut i: usize = 0;
    while i < chars.len()
        invariant
            chars@ == name@,
            i <= chars@.len(),
            forall|j: int| 0 <= j < i ==> chars@[j] != '/',
        decreases chars.len() - i,
    {
        if chars[i] == '/' {
            assert(name@[i as int] == '/');
            return true;
        }
        i = i + 1;
    }
    false
}

/// What every session gets: the user's house style, then `HOST_CLAUDE_SETTINGS`.
pub fn host_claude_settings(assistant: &Assistant) -> (r: Vec<String>)
    ensures
        text::views(r@) == baseline(assistant@),
{
    let mut names: Vec<String> = Vec::new();
    names.push(assistant.guide());
    names.push(HOST_CLAUDE_SETTINGS[0].to_string());
    names.push(HOST_CLAUDE_SETTINGS[1].to_string());
    assert(text::views(names@) =~= baseline(assistant@));
    names
}

/// The names that may be shared, in order. Names are joined as single components,
/// so a manifest cannot escape with `../`.
pub fn candidates(assistant: &Assistant, extra: &Vec<String>) -> (r: Vec<String>)
    ensures
        text::views(r@) == shared_names(assistant@, text::views(extra@)),
{
    let ghost asked = text::views(extra@);
    let mut names = host_claude_settings(assistant);
    let mut i: usize = 0;
    assert(asked.take(0) =~= seq![]);
    while i < extra.len()
        invariant
            i <= extra@.len(),
            asked == text::views(extra@),
            text::views(names@) == merged(baseline(assistant@), asked.take(i as int)),
        decreases extra.len() - i,
    {
        assert(asked.take(i + 1).drop_last() =~= asked.take(i as int));
        assert(asked.take(i + 1).last() == extra@[i as int]@);
        if !text::lists(&names, extra[i].as_str()) {
            let name = extra[i].clone();
            proof {
                text::lemma_views_push(names@, name);
            }
            names.push(name);
        }
        i = i + 1;
    }
    assert(asked.take(i as int) =~= asked);
    let ghost all = text::views(names@);
    let mut out: Vec<String> = Vec::new();
    let mut k: usize = 0;
    assert(text::views(out@) =~= inside(all.take(0)));
    while k < names.len()
        invariant
            k <= names@.len(),
            all == text::views(names@),
            text::views(out@) == inside(all.take(k as int)),
        decreases names.len() - k,
    {
        assert(all.take(k + 1).drop_last() =~= all.take(k as int));
        assert(all.take(k + 1).last() == names@[k as int]@);
        if !leads_elsewhere(names[k].as_str()) {
            let name = names[k].clone();
            proof {
                text::lemma_views_push(out@, name);
            }
            out.push(name);
        }
        k = k + 1;
    }
    assert(all.take(k as int) =~= all);
    out
}

/// What stands at a path on the host, links followed: symlinking the skills
/// directory is a normal way to keep it under version control elsewhere.
#[derive(Clone, Copy, Debug, PartialEq, Eq, Structural)]
pub enum Kind {
    Directory,
    File,
    /// Neither, or nothing.
    Other,
}

/// How something is copied.
#[derive(Clone, Copy, Debug, PartialEq, Eq, Structural)]
pub enum Manner {
    File,
    /// Whole, with directories at most this deep, itself included.
    Tree(usize),
}

/// Something to copy from the host, over what the session has there.
#[derive(Debug, PartialEq)]
pub struct Copied {
    pub name: String,
    pub source: PathBuf,
    pub destination: PathBuf,
    pub manner: Manner,
}

/// A `Copied`, its texts as sequences of characters.
#[verifier::ext_equal]
pub struct CopiedView {
    pub name: Seq<char>,
    pub source: Seq<char>,
    pub destination: Seq<char>,
    pub manner: Manner,
}

impl View for Copied {
    type V = CopiedView;

    open spec fn view(&self) -> CopiedView {
        CopiedView {
            name: self.name@,
            source: self.source@,
            destination: self.destination@,
            manner: self.manner,
        }
    }
}

/// How what stands at a path is copied, if at all, where directories may be that
/// deep.
pub open spec fn manner_of(kind: Kind, depth: usize) -> Option<Manner> {
    match kind {
        Kind::File => Some(Manner::File),
        Kind::Directory => if depth > 0 {
            Some(Manner::Tree(depth))
        } else {
            None
        },
        Kind::Other => None,
    }
}

/// What is copied of some names, given what stands at each on the host.
pub open spec fn shared(
    host_home: Seq<char>,
    session_home: Seq<char>,
    names: Seq<Seq<char>>,
    kinds: Seq<Kind>,
) -> Seq<CopiedView>
    decreases names.len(),
{
    if names.len() == 0 {
        seq![]
    } else {
        let rest = shared(host_home, session_home, names.drop_last(), kinds);
        let name = names.last();
        match manner_of(kinds[names.len() - 1], MAX_DEPTH) {
            Some(manner) => rest.push(
                CopiedView {
                    name,
                    source: paths::joined(host_home, name),
                    destination: paths::joined(session_home, name),
                    manner,
                },
            ),
            None => rest,
        }
    }
}

/// How what stands at a path is copied, if at all, where directories may be that
/// deep.
pub fn manner(kind: Kind, depth: usize) -> (r: Option<Manner>)
    ensures
        r == manner_of(kind, depth),
{
    match kind {
        Kind::File => Some(Manner::File),
        Kind::Directory => if depth > 0 {
            Some(Manner::Tree(depth))
        } else {
            None
        },
        Kind::Other => None,
    }
}

/// How an entry of a directory that is copied so is copied, if at all. A tree
/// deeper than the limit is cut there.
pub fn within(kind: Kind, depth: usize) -> (r: Option<Manner>)
    requires
        depth > 0,
    ensures
        r == manner_of(kind, (depth - 1) as usize),
        r matches Some(Manner::Tree(left)) ==> left < depth,
{
    manner(kind, depth - 1)
}

/// What to copy from the host's assistant home into the session's, given what
/// stands there for each name: files (the house style) and directories (`skills`),
/// each over what the session has, a directory whole.
///
/// The host is authoritative: an edit there must reach the next session rather
/// than being shadowed by a stale copy, which is why a shared directory is
/// replaced rather than merged. A skill deleted on the host disappears from the
/// session too. Everything else in the session's home is session state and is
/// never overwritten from here.
pub fn share(
    host_home: &PathBuf,
    session_home: &PathBuf,
    names: &Vec<String>,
    kinds: &Vec<Kind>,
) -> (r: Vec<Copied>)
    requires
        kinds@.len() == names@.len(),
    ensures
        text::views(r@) == shared(host_home@, session_home@, text::views(names@), kinds@),
{
    let ghost all = text::views(names@);
    let mut out: Vec<Copied> = Vec::new();
    let mut i: usize = 0;
    assert(text::views(out@) =~= shared(host_home@, session_home@, all.take(0), kinds@));
    while i < names.len()
        invariant
            i <= names@.len(),
            kinds@.len() == names@.len(),
            all == text::views(names@),
            text::views(out@) == shared(host_home@, session_home@, all.take(i as int), kinds@),
        decreases names.len() - i,
    {
        assert(all.take(i + 1).drop_last() =~= all.take(i as int));
        assert(all.take(i + 1).last() == names@[i as int]@);
        let name = names[i].clone();
        match manner(kinds[i], MAX_DEPTH) {
            Some(manner) => {
                let source = host_home.join(name.as_str());
                let destination = session_home.join(name.as_str());
                let copied = Copied { name, source, destination, manner };
                proof {
                    text::lemma_views_push(out@, copied);
                }
                out.push(copied);
            },
            None => {},
        }
        i = i + 1;
    }
    assert(all.take(i as int) =~= all);
    out
}

// ---------------------------------------------------------------------------
// Laws
// ---------------------------------------------------------------------------

proof fn lemma_inside(names: Seq<Seq<char>>)
    ensures
        forall|i: int|
            0 <= i < inside(names).len() ==> stays_inside(#[trigger] inside(names)[i])
                && names.contains(inside(names)[i]),
    decreases names.len(),
{
    if names.len() > 0 {
        let rest = names.drop_last();
        lemma_inside(rest);
        assert forall|i: int| 0 <= i < inside(names).len() implies stays_inside(
            #[trigger] inside(names)[i],
        ) && names.contains(inside(names)[i]) by {
            if i < inside(rest).len() {
                let k = choose|k: int| 0 <= k < rest.len() && rest[k] == inside(rest)[i];
                assert(names[k] == inside(names)[i]);
            } else {
                assert(names[names.len() - 1] == inside(names)[i]);
            }
        }
    }
}

/// A name that is shared is copied to one place below the session's home, of
/// that name: a manifest cannot reach outside with `../`.
pub proof fn law_shared_names_stay_inside(
    assistant: Seq<char>,
    extra: Seq<Seq<char>>,
    home: Seq<char>,
    i: int,
)
    requires
        0 <= i < shared_names(assistant, extra).len(),
        home.len() > 0,
    ensures
        paths::components(paths::joined(home, shared_names(assistant, extra)[i]))
            == paths::components(home).push(shared_names(assistant, extra)[i]),
        shared_names(assistant, extra)[i] != ".."@,
{
    let name = shared_names(assistant, extra)[i];
    lemma_inside(merged(baseline(assistant), extra));
    reveal_strlit(".");
    assert("."@ =~= seq!['.']);
    paths::lemma_joined_name(home, name);
}

proof fn lemma_shared(
    host_home: Seq<char>,
    session_home: Seq<char>,
    names: Seq<Seq<char>>,
    kinds: Seq<Kind>,
)
    ensures
        forall|k: int|
            0 <= k < shared(host_home, session_home, names, kinds).len() ==> {
                let copied = #[trigger] shared(host_home, session_home, names, kinds)[k];
                names.contains(copied.name) && copied.destination == paths::joined(
                    session_home,
                    copied.name,
                ) && copied.source == paths::joined(host_home, copied.name)
            },
    decreases names.len(),
{
    if names.len() > 0 {
        let rest = names.drop_last();
        let whole = shared(host_home, session_home, names, kinds);
        let shorter = shared(host_home, session_home, rest, kinds);
        lemma_shared(host_home, session_home, rest, kinds);
        assert forall|k: int| 0 <= k < whole.len() implies names.contains(
            (#[trigger] whole[k]).name,
        ) && whole[k].destination == paths::joined(session_home, whole[k].name)
            && whole[k].source == paths::joined(host_home, whole[k].name) by {
            if k < shorter.len() {
                assert(whole[k] == shorter[k]);
                let j = choose|j: int| 0 <= j < rest.len() && rest[j] == shorter[k].name;
                assert(names[j] == whole[k].name);
            } else {
                assert(names[names.len() - 1] == whole[k].name);
            }
        }
    }
}

/// Everything else in the session's home is session state, and is never
/// overwritten: nothing that is copied lands on an entry whose name is not
/// shared, above it or below it.
pub proof fn law_what_is_not_shared_is_not_overwritten(
    assistant: Seq<char>,
    extra: Seq<Seq<char>>,
    host_home: Seq<char>,
    session_home: Seq<char>,
    kinds: Seq<Kind>,
    k: int,
    other: Seq<char>,
)
    requires
        session_home.len() > 0,
        0 <= k < shared(host_home, session_home, shared_names(assistant, extra), kinds).len(),
        paths::is_name(other),
        !other.contains('/'),
        !shared_names(assistant, extra).contains(other),
    ensures
        ({
            let copied = shared(
                host_home,
                session_home,
                shared_names(assistant, extra),
                kinds,
            )[k].destination;
            let kept = paths::joined(session_home, other);
            !paths::within(kept, copied) && !paths::within(copied, kept)
        }),
{
    let names = shared_names(assistant, extra);
    lemma_shared(host_home, session_home, names, kinds);
    let copied = shared(host_home, session_home, names, kinds)[k];
    let i = choose|i: int| 0 <= i < names.len() && names[i] == copied.name;
    law_shared_names_stay_inside(assistant, extra, session_home, i);
    paths::lemma_joined_name(session_home, other);
    let stem = paths::components(session_home);
    let a = paths::components(copied.destination);
    let b = paths::components(paths::joined(session_home, other));
    assert(a[stem.len() as int] == copied.name);
    assert(b[stem.len() as int] == other);
    if a.is_prefix_of(b) || b.is_prefix_of(a) {
        assert(a[stem.len() as int] == b[stem.len() as int]);
    }
}

proof fn lemma_merged(names: Seq<Seq<char>>, extra: Seq<Seq<char>>)
    requires
        names.no_duplicates(),
    ensures
        merged(names, extra).no_duplicates(),
        names.is_prefix_of(merged(names, extra)),
        forall|i: int| 0 <= i < extra.len() ==> merged(names, extra).contains(#[trigger] extra[i]),
    decreases extra.len(),
{
    if extra.len() == 0 {
        assert(names =~= names.subrange(0, names.len() as int));
    } else {
        let shorter = extra.drop_last();
        lemma_merged(names, shorter);
        let rest = merged(names, shorter);
        let whole = merged(names, extra);
        assert(names =~= whole.subrange(0, names.len() as int));
        assert forall|i: int| 0 <= i < extra.len() implies whole.contains(#[trigger] extra[i]) by {
            if i < shorter.len() {
                assert(extra[i] == shorter[i]);
                let k = choose|k: int| 0 <= k < rest.len() && rest[k] == extra[i];
                assert(whole[k] == extra[i]);
            } else if !rest.contains(extra.last()) {
                assert(whole[whole.len() - 1] == extra[i]);
            }
        }
    }
}

/// Every name that the manifest adds is considered once, after what every
/// session gets.
pub proof fn law_added_names_are_considered_once(
    assistant: Seq<char>,
    extra: Seq<Seq<char>>,
)
    ensures
        merged(baseline(assistant), extra).no_duplicates(),
        baseline(assistant).is_prefix_of(merged(baseline(assistant), extra)),
        forall|i: int|
            0 <= i < extra.len() ==> merged(baseline(assistant), extra).contains(#[trigger] extra[i]),
{
    reveal_strlit(".md");
    reveal_strlit("settings.json");
    reveal_strlit("skills");
    assert(baseline(assistant)[0].last() == 'd');
    assert(baseline(assistant)[1].last() == 'n');
    assert(baseline(assistant)[2].last() == 's');
    assert(baseline(assistant).no_duplicates());
    lemma_merged(baseline(assistant), extra);
}

proof fn lemma_inside_holds(names: Seq<Seq<char>>, name: Seq<char>)
    ensures
        inside(names).contains(name) <==> names.contains(name) && stays_inside(name),
    decreases names.len(),
{
    if names.len() > 0 {
        let rest = names.drop_last();
        lemma_inside_holds(rest, name);
        lemma_inside(names);
        if inside(names).contains(name) {
            let k = choose|k: int| 0 <= k < inside(names).len() && inside(names)[k] == name;
            assert(stays_inside(inside(names)[k]));
        }
        if names.contains(name) && stays_inside(name) {
            let k = choose|k: int| 0 <= k < names.len() && names[k] == name;
            if k < rest.len() {
                assert(rest[k] == name);
                let j = choose|j: int| 0 <= j < inside(rest).len() && inside(rest)[j] == name;
                assert(inside(names)[j] == name);
            } else {
                assert(inside(names)[inside(names).len() - 1] == name);
            }
        }
    }
}

proof fn lemma_merged_members(names: Seq<Seq<char>>, extra: Seq<Seq<char>>, name: Seq<char>)
    ensures
        merged(names, extra).contains(name) <==> names.contains(name) || extra.contains(name),
    decreases extra.len(),
{
    if extra.len() > 0 {
        let shorter = extra.drop_last();
        let rest = merged(names, shorter);
        let whole = merged(names, extra);
        lemma_merged_members(names, shorter, name);
        if rest.contains(name) {
            let k = choose|k: int| 0 <= k < rest.len() && rest[k] == name;
            assert(whole[k] == name);
        }
        if extra.last() == name && !rest.contains(name) {
            assert(whole[whole.len() - 1] == name);
        }
        if shorter.contains(name) {
            let k = choose|k: int| 0 <= k < shorter.len() && shorter[k] == name;
            assert(extra[k] == name);
        }
        assert(extra[extra.len() - 1] == extra.last());
        if extra.contains(name) && !shorter.contains(name) {
            let k = choose|k: int| 0 <= k < extra.len() && extra[k] == name;
            if k < shorter.len() {
                assert(shorter[k] == name);
            }
        }
        if whole.contains(name) && !rest.contains(name) {
            let k = choose|k: int| 0 <= k < whole.len() && whole[k] == name;
            if k < rest.len() {
                assert(rest[k] == name);
            }
        }
    }
}

/// What is shared is the user's house style, their settings, their skills and
/// whatever the manifest adds, as long as it is a name of something in the home: not
/// empty, without a separator, and neither `.` nor `..`. Nothing else is.
pub proof fn law_exactly_names_of_the_home_are_shared(
    assistant: Seq<char>,
    extra: Seq<Seq<char>>,
    name: Seq<char>,
)
    ensures
        shared_names(assistant, extra).contains(name) <==> (name == assistant::guide(assistant)
            || name == "settings.json"@ || name == "skills"@ || extra.contains(name))
            && name.len() > 0 && !name.contains('/') && name != seq!['.'] && name != seq!['.', '.'],
{
    reveal_strlit(".");
    reveal_strlit("..");
    assert("."@ =~= seq!['.']);
    assert(".."@ =~= seq!['.', '.']);
    let base = baseline(assistant);
    assert(base[0] == assistant::guide(assistant) && base[1] == "settings.json"@ && base[2]
        == "skills"@);
    lemma_merged_members(base, extra, name);
    lemma_inside_holds(merged(base, extra), name);
}

/// Every shared name at which a file or a directory stands on the host is copied to
/// that name in the session's home: a file as one, a directory as a tree of at most
/// thirty-two directories. Where neither stands there, nothing is copied.
pub proof fn law_every_shared_name_is_copied(
    host_home: Seq<char>,
    session_home: Seq<char>,
    names: Seq<Seq<char>>,
    kinds: Seq<Kind>,
    i: int,
)
    requires
        0 <= i < names.len() <= kinds.len(),
    ensures
        kinds[i] != Kind::Other ==> shared(host_home, session_home, names, kinds).contains(
            CopiedView {
                name: names[i],
                source: paths::joined(host_home, names[i]),
                destination: paths::joined(session_home, names[i]),
                manner: if kinds[i] == Kind::File {
                    Manner::File
                } else {
                    Manner::Tree(32)
                },
            },
        ),
        (forall|k: int| 0 <= k < names.len() ==> #[trigger] kinds[k] == Kind::Other) ==> shared(
            host_home,
            session_home,
            names,
            kinds,
        ).len() == 0,
    decreases names.len(),
{
    let rest = names.drop_last();
    let whole = shared(host_home, session_home, names, kinds);
    let shorter = shared(host_home, session_home, rest, kinds);
    if rest.len() > 0 {
        law_every_shared_name_is_copied(
            host_home,
            session_home,
            rest,
            kinds,
            if i < rest.len() {
                i
            } else {
                0
            },
        );
    }
    if kinds[i] != Kind::Other {
        let copied = CopiedView {
            name: names[i],
            source: paths::joined(host_home, names[i]),
            destination: paths::joined(session_home, names[i]),
            manner: if kinds[i] == Kind::File {
                Manner::File
            } else {
                Manner::Tree(32)
            },
        };
        if i < rest.len() {
            assert(rest[i] == names[i]);
            let k = choose|k: int| 0 <= k < shorter.len() && shorter[k] == copied;
            assert(whole[k] == copied);
        } else {
            assert(whole[whole.len() - 1] == copied);
        }
    }
    if forall|k: int| 0 <= k < names.len() ==> #[trigger] kinds[k] == Kind::Other {
        assert(kinds[names.len() - 1] == Kind::Other);
    }
}

/// A directory is copied as deep as it may be, and not at all where it may be no
/// deeper; a file always is, and whatever else stands there never is.
pub proof fn law_only_files_and_directories_are_copied(depth: usize)
    ensures
        manner_of(Kind::File, depth) == Some(Manner::File),
        manner_of(Kind::Directory, depth) == (if depth > 0 {
            Some(Manner::Tree(depth))
        } else {
            None
        }),
        manner_of(Kind::Other, depth) is None,
{
}

} // verus!

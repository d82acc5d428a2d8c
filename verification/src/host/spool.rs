//! The request/response directory tree, from either side of the mount: which
//! files are written, read and cleared, and under which names.
use crate::error::{HostError, RefusalView};
use crate::host;
use crate::host::request;
use crate::host::request::Request;
use crate::paths;
use crate::paths::PathBuf;
use crate::text;
use crate::workspace;
use vstd::prelude::*;

verus! {

/// A file to write under one name and rename to another, so that a reader
/// across the mount never finds it incomplete.
#[derive(Debug, PartialEq)]
pub struct Publication {
    pub contents: Vec<u8>,
    pub partial: PathBuf,
    pub published: PathBuf,
}

/// What publishing `contents` as `name` in a directory writes and renames.
pub open spec fn is_publication(
    publication: Publication,
    directory: Seq<char>,
    name: Seq<char>,
    contents: Seq<u8>,
) -> bool {
    &&& publication.contents@ == contents
    &&& publication.partial@ == paths::joined(directory, name + ".partial"@)
    &&& publication.published@ == paths::joined(directory, name)
}

/// `<name>.partial` to write, and `name` to rename it to.
pub fn publication(directory: &PathBuf, name: &str, contents: Vec<u8>) -> (r: Publication)
    ensures
        is_publication(r, directory@, name@, contents@),
{
    let mut partial = name.to_string();
    partial.append(host::PARTIAL_SUFFIX);
    Publication {
        contents,
        partial: directory.join(partial.as_str()),
        published: directory.join(name),
    }
}

/// The id of a request, from the name of the file that holds it.
pub open spec fn id_of(name: Seq<char>) -> Option<Seq<char>> {
    if ".request"@.is_suffix_of(name) {
        Some(name.take(name.len() - ".request"@.len()))
    } else {
        None
    }
}

/// Whether `id` is the id of the oldest request among file names: of one of
/// them, and before or the same as that of any other.
pub open spec fn is_oldest(names: Seq<Seq<char>>, id: Seq<char>) -> bool {
    &&& exists|i: int| 0 <= i < names.len() && id_of(#[trigger] names[i]) == Some(id)
    &&& forall|i: int|
        0 <= i < names.len() && id_of(#[trigger] names[i]) is Some ==> !text::less(
            id_of(names[i])->0,
            id,
        )
}

/// The id of a request, from the name of the file that holds it.
fn request_id(name: &str) -> (r: Option<String>)
    ensures
        text::view_of(r) == id_of(name@),
{
    if text::ends_with(name, host::REQUEST_SUFFIX) {
        let n: usize = name.unicode_len();
        let m: usize = host::REQUEST_SUFFIX.unicode_len();
        let id = name.substring_char(0, n - m);
        assert(id@ =~= name@.take(n - m));
        Some(id.to_string())
    } else {
        None
    }
}

#[derive(Debug, PartialEq)]
pub struct Spool {
    pub root: PathBuf,
}

/// One name that a directory holds, and whether it is a directory itself.
#[derive(Debug, PartialEq)]
pub struct Listed {
    pub directory: bool,
    pub path: PathBuf,
}

/// Whether a path is listed, and not as a directory.
pub open spec fn is_file(listed: Seq<Listed>, path: PathBuf) -> bool {
    exists|i: int|
        0 <= i < listed.len() && !(#[trigger] listed[i]).directory && listed[i].path == path
}

impl Spool {
    pub fn new(root: PathBuf) -> (r: Self)
        ensures
            r.root == root,
    {
        Spool { root }
    }

    pub fn requests(&self) -> (r: PathBuf)
        ensures
            r@ == paths::joined(self.root@, "requests"@),
    {
        self.root.join(host::REQUESTS_DIR)
    }

    pub fn running(&self) -> (r: PathBuf)
        ensures
            r@ == paths::joined(self.root@, "running"@),
    {
        self.root.join(host::RUNNING_DIR)
    }

    pub fn responses(&self) -> (r: PathBuf)
        ensures
            r@ == paths::joined(self.root@, "responses"@),
    {
        self.root.join(host::RESPONSES_DIR)
    }

    /// The directories that the host creates before the container starts (the
    /// guest cannot create them itself on a mount that does not yet exist), and
    /// that emptying the spool clears. They must survive that: a running
    /// container's mount is attached to the inode, so a spool removed and
    /// recreated at the same path leaves the guest holding a dead directory for
    /// as long as the container lives.
    pub fn directories(&self) -> (r: Vec<PathBuf>)
        ensures
            text::views(r@) == seq![
                paths::joined(self.root@, "requests"@),
                paths::joined(self.root@, "running"@),
                paths::joined(self.root@, "responses"@),
            ],
    {
        let mut out: Vec<PathBuf> = Vec::new();
        out.push(self.requests());
        out.push(self.running());
        out.push(self.responses());
        assert(text::views(out@) =~= seq![
            paths::joined(self.root@, "requests"@),
            paths::joined(self.root@, "running"@),
            paths::joined(self.root@, "responses"@),
        ]);
        out
    }

    /// The directories that are swept before a container is created: what a
    /// killed guest client left, chunks and a claim that nothing will collect.
    /// Every client that could be waiting died with the previous container.
    ///
    /// Requests are not swept: one submitted between the spool's creation and
    /// the container starting is live, and dropping it would hang its client.
    pub fn swept(&self) -> (r: Vec<PathBuf>)
        ensures
            text::views(r@) == seq![
                paths::joined(self.root@, "running"@),
                paths::joined(self.root@, "responses"@),
            ],
    {
        let mut out: Vec<PathBuf> = Vec::new();
        out.push(self.running());
        out.push(self.responses());
        assert(text::views(out@) =~= seq![
            paths::joined(self.root@, "running"@),
            paths::joined(self.root@, "responses"@),
        ]);
        out
    }

    /// What a sweep removes of what those directories hold, in the order of
    /// paths: everything but directories.
    pub fn sweep(&self, listed: &Vec<Listed>) -> (r: Vec<PathBuf>)
        ensures
            workspace::is_ordered(r@),
            forall|k: int| 0 <= k < r@.len() ==> is_file(listed@, #[trigger] r@[k]),
            forall|i: int|
                0 <= i < listed@.len() && !(#[trigger] listed@[i]).directory ==> exists|k: int|
                    0 <= k < r@.len() && paths::same_place(
                        (#[trigger] r@[k])@,
                        listed@[i].path@,
                    ),
    {
        let mut out: Vec<PathBuf> = Vec::new();
        let mut i: usize = 0;
        while i < listed.len()
            invariant
                i <= listed@.len(),
                workspace::is_ordered(out@),
                forall|k: int| 0 <= k < out@.len() ==> is_file(listed@, #[trigger] out@[k]),
                forall|e: int|
                    0 <= e < i && !(#[trigger] listed@[e]).directory ==> exists|k: int|
                        0 <= k < out@.len() && paths::same_place(
                            (#[trigger] out@[k])@,
                            listed@[e].path@,
                        ),
            decreases listed.len() - i,
        {
            if !listed[i].directory {
                let ghost before = out@;
                workspace::insert_in_order(&mut out, listed[i].path.clone());
                proof {
                    assert forall|k: int| 0 <= k < out@.len() implies is_file(
                        listed@,
                        #[trigger] out@[k],
                    ) by {
                        if out@[k] == listed@[i as int].path {
                            assert(!listed@[i as int].directory);
                        } else {
                            assert(before.contains(out@[k]));
                            let b = choose|b: int| 0 <= b < before.len() && before[b] == out@[k];
                            assert(is_file(listed@, before[b]));
                        }
                    }
                    assert forall|e: int|
                        0 <= e < i + 1 && !(#[trigger] listed@[e]).directory implies exists|k: int|
                        0 <= k < out@.len() && paths::same_place(
                            (#[trigger] out@[k])@,
                            listed@[e].path@,
                        ) by {
                        if e < i {
                            let b = choose|b: int|
                                0 <= b < before.len() && paths::same_place(
                                    (#[trigger] before[b])@,
                                    listed@[e].path@,
                                );
                            assert(out@.contains(before[b]));
                            let k = choose|k: int| 0 <= k < out@.len() && out@[k] == before[b];
                            assert(paths::same_place(out@[k]@, listed@[e].path@));
                        }
                    }
                }
            }
            i = i + 1;
        }
        out
    }

    /// What a request is written as, the way the guest does it: `.partial` first,
    /// then rename.
    pub fn submit(&self, id: &str, request: &Request) -> (r: Result<Publication, HostError>)
        ensures
            match r {
                Ok(publication) => request::rendered(request@) is Ok && is_publication(
                    publication,
                    paths::joined(self.root@, "requests"@),
                    id@ + ".request"@,
                    text::utf8(request::rendered(request@)->Ok_0),
                ),
                Err(error) => error matches HostError::Refused(refusal) && request::rendered(
                    request@,
                ) == Err::<Seq<char>, RefusalView>(refusal@),
            },
    {
        match request.render() {
            Ok(contents) => {
                let mut name = id.to_string();
                name.append(host::REQUEST_SUFFIX);
                Ok(publication(&self.requests(), name.as_str(), contents.as_str().as_bytes_vec()))
            },
            Err(refusal) => Err(HostError::from(refusal)),
        }
    }

    /// The oldest unclaimed id among the names in the requests directory. Ids are
    /// timestamp-prefixed, so name order is arrival order.
    pub fn next_request_id(&self, names: &Vec<String>) -> (r: Option<String>)
        ensures
            match r {
                Some(id) => is_oldest(text::views(names@), id@),
                None => forall|i: int|
                    0 <= i < names@.len() ==> id_of(#[trigger] text::views(names@)[i]) is None,
            },
    {
        let ghost all = text::views(names@);
        let mut oldest: Option<String> = None;
        let mut i: usize = 0;
        while i < names.len()
            invariant
                i <= names@.len(),
                all == text::views(names@),
                match oldest {
                    Some(id) => is_oldest(all.take(i as int), id@),
                    None => forall|j: int| 0 <= j < i ==> id_of(#[trigger] all[j]) is None,
                },
            decreases names.len() - i,
        {
            assert(all[i as int] == names@[i as int]@);
            let ghost now = all.take(i + 1);
            let ghost earlier = all.take(i as int);
            if let Some(id) = request_id(names[i].as_str()) {
                assert(now[i as int] == all[i as int]);
                let replace = match &oldest {
                    Some(current) => text::before(id.as_str(), current.as_str()),
                    None => true,
                };
                if replace {
                    proof {
                        text::lemma_less_asymmetric(id@, id@);
                        assert forall|j: int|
                            0 <= j < now.len() && id_of(#[trigger] now[j]) is Some implies !text::less(
                        id_of(now[j])->0, id@) by {
                            if j < i {
                                assert(now[j] == earlier[j] && now[j] == all[j]);
                                if oldest is Some {
                                    let current = oldest->0@;
                                    let other = id_of(earlier[j])->0;
                                    assert(!text::less(other, current));
                                    if text::less(other, id@) {
                                        text::lemma_less_transitive(other, id@, current);
                                    }
                                }
                            }
                        }
                    }
                    oldest = Some(id);
                    assert(is_oldest(now, oldest->0@));
                } else {
                    proof {
                        let current = oldest->0@;
                        let k = choose|k: int|
                            0 <= k < earlier.len() && id_of(#[trigger] earlier[k]) == Some(current);
                        assert(now[k] == earlier[k]);
                        assert forall|j: int|
                            0 <= j < now.len() && id_of(#[trigger] now[j]) is Some implies !text::less(
                        id_of(now[j])->0, current) by {
                            if j < i {
                                assert(now[j] == earlier[j]);
                            }
                        }
                        assert(is_oldest(now, current));
                    }
                }
            } else {
                proof {
                    if oldest is Some {
                        let current = oldest->0@;
                        let k = choose|k: int|
                            0 <= k < earlier.len() && id_of(#[trigger] earlier[k]) == Some(current);
                        assert(now[k] == earlier[k]);
                        assert forall|j: int|
                            0 <= j < now.len() && id_of(#[trigger] now[j]) is Some implies !text::less(
                        id_of(now[j])->0, current) by {
                            assert(now[j] == all[j]);
                            if j < i {
                                assert(now[j] == earlier[j]);
                            }
                        }
                        assert(is_oldest(now, current));
                    }
                }
            }
            i = i + 1;
        }
        assert(all.take(i as int) =~= all);
        oldest
    }
}

/// A request that is still being written is not served: a `.partial` name holds
/// no id.
pub proof fn law_partial_requests_are_not_served(name: Seq<char>)
    requires
        ".partial"@.is_suffix_of(name),
    ensures
        id_of(name) is None,
{
    reveal_strlit(".partial");
    reveal_strlit(".request");
    if ".request"@.is_suffix_of(name) {
        let n = name.len() as int;
        assert(name.subrange(n - 8, n)[1] == name[n - 7]);
        assert(".partial"@[1] == 'p');
        assert(".request"@[1] == 'r');
        assert(name[n - 7] == 'p');
        assert(name[n - 7] == 'r');
    }
}

/// What is published appears under its own name in its directory, whole, and until
/// then is under that name with `.partial` behind it.
pub proof fn law_what_is_published_was_partial(
    publication: Publication,
    directory: Seq<char>,
    name: Seq<char>,
    contents: Seq<u8>,
)
    requires
        is_publication(publication, directory, name, contents),
    ensures
        publication.contents@ == contents,
        publication.published@ == paths::joined(directory, name),
        name.len() > 0 ==> publication.partial@ == publication.published@ + ".partial"@,
{
    reveal_strlit(".partial");
    if name.len() > 0 {
        assert(publication.partial@ =~= publication.published@ + ".partial"@);
    }
}

/// The id of a request is what comes before `.request`, and the request that is
/// served is there, and none that is there comes before it.
pub proof fn law_the_oldest_request_is_served(
    names: Seq<Seq<char>>,
    id: Seq<char>,
    other: Seq<char>,
)
    requires
        is_oldest(names, id),
    ensures
        id_of(other + ".request"@) == Some(other),
        names.contains(id + ".request"@),
        names.contains(other + ".request"@) ==> !text::less(other, id),
{
    let i = choose|i: int| 0 <= i < names.len() && id_of(#[trigger] names[i]) == Some(id);
    let name = names[i];
    let end = ".request"@;
    assert(end =~= name.subrange(name.len() - end.len(), name.len() as int));
    assert(name =~= id + end);
    let asked = other + end;
    assert(end =~= asked.subrange(asked.len() - end.len(), asked.len() as int));
    assert(asked.take(asked.len() - end.len()) =~= other);
    if names.contains(asked) {
        let k = choose|k: int| 0 <= k < names.len() && names[k] == asked;
        assert(id_of(names[k]) is Some);
    }
}

} // verus!

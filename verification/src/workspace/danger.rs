//! Which host paths should probably not be mounted at all.
//!
//! `add` refuses on either verdict without `--force`; `doctor` reports both,
//! since a manifest can be hand-edited.
use crate::paths;
use crate::paths::{PathBuf, PathResolver};
use crate::text;
use vstd::prelude::*;

verus! {

/// Paths whose contents are secrets. Mounting one, or anything inside it, hands
/// the container credentials it has no business holding.
pub const SENSITIVE_PATHS: [&'static str; 7] = [
    "/etc",
    "/private/etc",
    "~/.aws",
    "~/.gnupg",
    "~/.kube",
    "~/.ssh",
    "~/Library/Keychains",
];

/// Paths not secret in themselves, but covering a whole account or machine,
/// `SENSITIVE_PATHS` included.
pub const BROAD_PATHS: [&'static str; 6] = [
    "/",
    "/Users",
    "~",
    "~/Desktop",
    "~/Documents",
    "~/Downloads",
];

/// Why a path should probably not be mounted.
#[derive(Debug, Eq, PartialEq)]
pub enum Danger {
    /// Wide enough to expose the whole account, `SENSITIVE_PATHS` included.
    Broad(PathBuf),
    /// The path is, or lies inside, something that holds credentials.
    Sensitive(PathBuf),
}

/// A `Danger`, its path as a sequence of characters.
pub enum DangerView {
    Broad(Seq<char>),
    Sensitive(Seq<char>),
}

impl View for Danger {
    type V = DangerView;

    open spec fn view(&self) -> DangerView {
        match self {
            Danger::Broad(path) => DangerView::Broad(path@),
            Danger::Sensitive(path) => DangerView::Sensitive(path@),
        }
    }
}

/// The sentence that explains a danger.
pub open spec fn sentence_of(danger: DangerView) -> Seq<char> {
    match danger {
        DangerView::Broad(path) => path
            + " covers a whole account or machine, so mounting it mounts every secret under it"@,
        DangerView::Sensitive(path) => path + " holds credentials"@,
    }
}

impl Danger {
    /// The sentence that explains the danger.
    pub fn to_string(&self) -> (r: String)
        ensures
            r@ == sentence_of(self@),
    {
        match self {
            Danger::Broad(path) => {
                let mut out = path.display();
                out.append(
                    " covers a whole account or machine, so mounting it mounts every secret under it",
                );
                out
            },
            Danger::Sensitive(path) => {
                let mut out = path.display();
                out.append(" holds credentials");
                out
            },
        }
    }
}

/// Whether a path is, or lies inside, the sensitive path of that index.
pub open spec fn is_inside(path: Seq<char>, resolver: &PathResolver, i: int) -> bool {
    paths::within(path, resolver.leads_to(SENSITIVE_PATHS@[i]@))
}

/// Whether a path is the broad path of that index.
pub open spec fn is_broad(path: Seq<char>, resolver: &PathResolver, i: int) -> bool {
    paths::same_place(path, resolver.leads_to(BROAD_PATHS@[i]@))
}

/// Whether a path is, or lies inside, something that holds credentials.
pub open spec fn is_sensitive(path: Seq<char>, resolver: &PathResolver) -> bool {
    exists|i: int| 0 <= i < SENSITIVE_PATHS@.len() && is_inside(path, resolver, i)
}

/// The first of the sensitive paths from an index on that covers a path.
pub open spec fn cover(path: Seq<char>, resolver: &PathResolver, from: int) -> Option<Seq<char>>
    decreases SENSITIVE_PATHS@.len() - from,
{
    if from >= SENSITIVE_PATHS@.len() {
        None
    } else if is_inside(path, resolver, from) {
        Some(resolver.leads_to(SENSITIVE_PATHS@[from]@))
    } else {
        cover(path, resolver, from + 1)
    }
}

/// The first of the broad paths from an index on that a path is.
pub open spec fn breadth(path: Seq<char>, resolver: &PathResolver, from: int) -> Option<Seq<char>>
    decreases BROAD_PATHS@.len() - from,
{
    if from >= BROAD_PATHS@.len() {
        None
    } else if is_broad(path, resolver, from) {
        Some(resolver.leads_to(BROAD_PATHS@[from]@))
    } else {
        breadth(path, resolver, from + 1)
    }
}

/// What is wrong with mounting a path: the first sensitive path that covers it;
/// failing that, the first broad path that it is; failing both, nothing.
pub open spec fn verdict(path: Seq<char>, resolver: &PathResolver) -> Option<DangerView> {
    match cover(path, resolver, 0) {
        Some(found) => Some(DangerView::Sensitive(found)),
        None => match breadth(path, resolver, 0) {
            Some(found) => Some(DangerView::Broad(found)),
            None => None,
        },
    }
}

/// Judges an already-resolved host path. Guards against obvious slips, and is
/// no containment boundary: the container runs with the user's own privileges.
pub fn danger(path: &PathBuf, resolver: &PathResolver) -> (r: Option<Danger>)
    ensures
        text::view_of(r) == verdict(path@, resolver),
{
    let mut i: usize = 0;
    while i < SENSITIVE_PATHS.len()
        invariant
            i <= SENSITIVE_PATHS@.len(),
            cover(path@, resolver, 0) == cover(path@, resolver, i as int),
        decreases SENSITIVE_PATHS.len() - i,
    {
        let sensitive = resolver.resolve(SENSITIVE_PATHS[i]);
        if path.starts_with(&sensitive) {
            return Some(Danger::Sensitive(sensitive));
        }
        i = i + 1;
    }
    let mut k: usize = 0;
    while k < BROAD_PATHS.len()
        invariant
            k <= BROAD_PATHS@.len(),
            cover(path@, resolver, 0) is None,
            breadth(path@, resolver, 0) == breadth(path@, resolver, k as int),
        decreases BROAD_PATHS.len() - k,
    {
        let broad = resolver.resolve(BROAD_PATHS[k]);
        if path.is(&broad) {
            return Some(Danger::Broad(broad));
        }
        k = k + 1;
    }
    None
}

/// A path that some sensitive path covers is covered by one.
proof fn lemma_cover(path: Seq<char>, resolver: &PathResolver, from: int, i: int)
    requires
        0 <= from <= i < SENSITIVE_PATHS@.len(),
        is_inside(path, resolver, i),
    ensures
        cover(path, resolver, from) is Some,
    decreases i - from,
{
    if from < i && !is_inside(path, resolver, from) {
        lemma_cover(path, resolver, from + 1, i);
    }
}

/// Whatever lies inside a sensitive path is sensitive, however broad it is.
pub proof fn law_inside_a_sensitive_path_is_sensitive(
    path: Seq<char>,
    inside: Seq<char>,
    resolver: &PathResolver,
)
    requires
        is_sensitive(path, resolver),
        paths::within(inside, path),
    ensures
        verdict(inside, resolver) matches Some(danger) && danger is Sensitive,
{
    let i = choose|i: int| 0 <= i < SENSITIVE_PATHS@.len() && is_inside(path, resolver, i);
    paths::lemma_within(inside, path, resolver.leads_to(SENSITIVE_PATHS@[i]@));
    lemma_cover(inside, resolver, 0, i);
}

proof fn lemma_cover_found(path: Seq<char>, resolver: &PathResolver, from: int)
    requires
        0 <= from <= SENSITIVE_PATHS@.len(),
    ensures
        match cover(path, resolver, from) {
            Some(found) => exists|i: int|
                from <= i < SENSITIVE_PATHS@.len() && found == resolver.leads_to(
                    #[trigger] SENSITIVE_PATHS@[i]@,
                ) && paths::within(path, found),
            None => forall|i: int|
                from <= i < SENSITIVE_PATHS@.len() ==> !paths::within(
                    path,
                    resolver.leads_to(#[trigger] SENSITIVE_PATHS@[i]@),
                ),
        },
    decreases SENSITIVE_PATHS@.len() - from,
{
    if from < SENSITIVE_PATHS@.len() {
        if is_inside(path, resolver, from) {
            let found = resolver.leads_to(SENSITIVE_PATHS@[from]@);
            assert(cover(path, resolver, from) == Some(found));
            assert(paths::within(path, found));
        } else {
            lemma_cover_found(path, resolver, from + 1);
            if let Some(found) = cover(path, resolver, from) {
                let i = choose|i: int|
                    from + 1 <= i < SENSITIVE_PATHS@.len() && found == resolver.leads_to(
                        #[trigger] SENSITIVE_PATHS@[i]@,
                    ) && paths::within(path, found);
                assert(found == resolver.leads_to(SENSITIVE_PATHS@[i]@));
            }
        }
    }
}

proof fn lemma_breadth_found(path: Seq<char>, resolver: &PathResolver, from: int)
    requires
        0 <= from <= BROAD_PATHS@.len(),
    ensures
        match breadth(path, resolver, from) {
            Some(found) => exists|i: int|
                from <= i < BROAD_PATHS@.len() && found == resolver.leads_to(
                    #[trigger] BROAD_PATHS@[i]@,
                ) && paths::same_place(path, found),
            None => forall|i: int|
                from <= i < BROAD_PATHS@.len() ==> !paths::same_place(
                    path,
                    resolver.leads_to(#[trigger] BROAD_PATHS@[i]@),
                ),
        },
    decreases BROAD_PATHS@.len() - from,
{
    if from < BROAD_PATHS@.len() {
        if is_broad(path, resolver, from) {
            let found = resolver.leads_to(BROAD_PATHS@[from]@);
            assert(breadth(path, resolver, from) == Some(found));
            assert(paths::same_place(path, found));
        } else {
            lemma_breadth_found(path, resolver, from + 1);
            if let Some(found) = breadth(path, resolver, from) {
                let i = choose|i: int|
                    from + 1 <= i < BROAD_PATHS@.len() && found == resolver.leads_to(
                        #[trigger] BROAD_PATHS@[i]@,
                    ) && paths::same_place(path, found);
                assert(found == resolver.leads_to(BROAD_PATHS@[i]@));
            }
        }
    }
}

/// Every sensitive path is dangerous to mount, with everything inside it: whatever
/// the index, the verdict is that a sensitive path covers it.
pub proof fn law_every_sensitive_path_is_dangerous(
    path: Seq<char>,
    resolver: &PathResolver,
    i: int,
)
    requires
        0 <= i < SENSITIVE_PATHS@.len(),
        paths::within(path, resolver.leads_to(SENSITIVE_PATHS@[i]@)),
    ensures
        verdict(path, resolver) matches Some(DangerView::Sensitive(found)) && paths::within(
            path,
            found,
        ),
{
    lemma_cover_found(path, resolver, 0);
}

/// Every broad path is dangerous to mount: whatever the index, a path at that place
/// has a verdict, which is that it is broad unless a sensitive path covers it.
pub proof fn law_every_broad_path_is_dangerous(path: Seq<char>, resolver: &PathResolver, i: int)
    requires
        0 <= i < BROAD_PATHS@.len(),
        paths::same_place(path, resolver.leads_to(BROAD_PATHS@[i]@)),
    ensures
        match verdict(path, resolver) {
            Some(DangerView::Sensitive(found)) => paths::within(path, found) && exists|k: int|
                0 <= k < SENSITIVE_PATHS@.len() && found == resolver.leads_to(
                    #[trigger] SENSITIVE_PATHS@[k]@,
                ),
            Some(DangerView::Broad(found)) => paths::same_place(path, found) && forall|k: int|
                0 <= k < SENSITIVE_PATHS@.len() ==> !paths::within(
                    path,
                    resolver.leads_to(#[trigger] SENSITIVE_PATHS@[k]@),
                ),
            None => false,
        },
{
    lemma_cover_found(path, resolver, 0);
    lemma_breadth_found(path, resolver, 0);
}

/// A verdict has a cause: a path is sensitive only inside a sensitive path, broad
/// only where it is a broad path and inside no sensitive one, and unobjectionable
/// only where it is neither.
pub proof fn law_only_dangerous_paths_have_a_verdict(path: Seq<char>, resolver: &PathResolver)
    ensures
        match verdict(path, resolver) {
            Some(DangerView::Sensitive(found)) => paths::within(path, found) && exists|i: int|
                0 <= i < SENSITIVE_PATHS@.len() && found == resolver.leads_to(
                    #[trigger] SENSITIVE_PATHS@[i]@,
                ),
            Some(DangerView::Broad(found)) => {
                &&& paths::same_place(path, found)
                &&& exists|i: int|
                    0 <= i < BROAD_PATHS@.len() && found == resolver.leads_to(
                        #[trigger] BROAD_PATHS@[i]@,
                    )
                &&& forall|i: int|
                    0 <= i < SENSITIVE_PATHS@.len() ==> !paths::within(
                        path,
                        resolver.leads_to(#[trigger] SENSITIVE_PATHS@[i]@),
                    )
            },
            None => {
                &&& forall|i: int|
                    0 <= i < SENSITIVE_PATHS@.len() ==> !paths::within(
                        path,
                        resolver.leads_to(#[trigger] SENSITIVE_PATHS@[i]@),
                    )
                &&& forall|i: int|
                    0 <= i < BROAD_PATHS@.len() ==> !paths::same_place(
                        path,
                        resolver.leads_to(#[trigger] BROAD_PATHS@[i]@),
                    )
            },
        },
{
    lemma_cover_found(path, resolver, 0);
    lemma_breadth_found(path, resolver, 0);
}

/// Below any home, the directories that hold credentials are sensitive with all
/// that is in them, and so is the machine's configuration.
pub proof fn law_credentials_are_sensitive(path: Seq<char>, resolver: &PathResolver)
    requires
        ({
            let home = resolver.home@;
            ||| paths::within(path, paths::joined(home, ".aws"@))
            ||| paths::within(path, paths::joined(home, ".gnupg"@))
            ||| paths::within(path, paths::joined(home, ".kube"@))
            ||| paths::within(path, paths::joined(home, ".ssh"@))
            ||| paths::within(path, paths::joined(home, "Library/Keychains"@))
            ||| paths::within(path, "/etc"@)
            ||| paths::within(path, "/private/etc"@)
        }),
    ensures
        verdict(path, resolver) matches Some(DangerView::Sensitive(_)),
{
    lemma_tilde(resolver);
    reveal_strlit("/etc");
    reveal_strlit("/private/etc");
    let home = resolver.home@;
    assert(SENSITIVE_PATHS@[0]@ == "/etc"@ && SENSITIVE_PATHS@[1]@ == "/private/etc"@);
    let i: int = if paths::within(path, "/etc"@) {
        0
    } else if paths::within(path, "/private/etc"@) {
        1
    } else if paths::within(path, paths::joined(home, ".aws"@)) {
        2
    } else if paths::within(path, paths::joined(home, ".gnupg"@)) {
        3
    } else if paths::within(path, paths::joined(home, ".kube"@)) {
        4
    } else if paths::within(path, paths::joined(home, ".ssh"@)) {
        5
    } else {
        6
    };
    law_every_sensitive_path_is_dangerous(path, resolver, i);
}

/// The machine's root, where its accounts live, any home, and what stands in a home
/// for a whole account are dangerous to mount.
pub proof fn law_whole_accounts_are_dangerous(path: Seq<char>, resolver: &PathResolver)
    requires
        ({
            let home = resolver.home@;
            ||| paths::same_place(path, "/"@)
            ||| paths::same_place(path, "/Users"@)
            ||| paths::same_place(path, home)
            ||| paths::same_place(path, paths::joined(home, "Desktop"@))
            ||| paths::same_place(path, paths::joined(home, "Documents"@))
            ||| paths::same_place(path, paths::joined(home, "Downloads"@))
        }),
    ensures
        verdict(path, resolver) is Some,
{
    lemma_tilde(resolver);
    reveal_strlit("/");
    reveal_strlit("/Users");
    let home = resolver.home@;
    let i: int = if paths::same_place(path, "/"@) {
        0
    } else if paths::same_place(path, "/Users"@) {
        1
    } else if paths::same_place(path, home) {
        2
    } else if paths::same_place(path, paths::joined(home, "Desktop"@)) {
        3
    } else if paths::same_place(path, paths::joined(home, "Documents"@)) {
        4
    } else {
        5
    };
    law_every_broad_path_is_dangerous(path, resolver, i);
}

/// Where the paths written with `~` lead.
proof fn lemma_tilde(resolver: &PathResolver)
    ensures
        resolver.leads_to("~"@) == resolver.home@,
        resolver.leads_to("~/.aws"@) == paths::joined(resolver.home@, ".aws"@),
        resolver.leads_to("~/.gnupg"@) == paths::joined(resolver.home@, ".gnupg"@),
        resolver.leads_to("~/.kube"@) == paths::joined(resolver.home@, ".kube"@),
        resolver.leads_to("~/.ssh"@) == paths::joined(resolver.home@, ".ssh"@),
        resolver.leads_to("~/Library/Keychains"@) == paths::joined(
            resolver.home@,
            "Library/Keychains"@,
        ),
        resolver.leads_to("~/Desktop"@) == paths::joined(resolver.home@, "Desktop"@),
        resolver.leads_to("~/Documents"@) == paths::joined(resolver.home@, "Documents"@),
        resolver.leads_to("~/Downloads"@) == paths::joined(resolver.home@, "Downloads"@),
{
    reveal_strlit("~");
    assert("~"@ =~= seq!['~']);
    reveal_strlit("~/.aws");
    reveal_strlit(".aws");
    lemma_below_home(resolver, "~/.aws"@, ".aws"@);
    reveal_strlit("~/.gnupg");
    reveal_strlit(".gnupg");
    lemma_below_home(resolver, "~/.gnupg"@, ".gnupg"@);
    reveal_strlit("~/.kube");
    reveal_strlit(".kube");
    lemma_below_home(resolver, "~/.kube"@, ".kube"@);
    reveal_strlit("~/.ssh");
    reveal_strlit(".ssh");
    lemma_below_home(resolver, "~/.ssh"@, ".ssh"@);
    reveal_strlit("~/Library/Keychains");
    reveal_strlit("Library/Keychains");
    lemma_below_home(resolver, "~/Library/Keychains"@, "Library/Keychains"@);
    reveal_strlit("~/Desktop");
    reveal_strlit("Desktop");
    lemma_below_home(resolver, "~/Desktop"@, "Desktop"@);
    reveal_strlit("~/Documents");
    reveal_strlit("Documents");
    lemma_below_home(resolver, "~/Documents"@, "Documents"@);
    reveal_strlit("~/Downloads");
    reveal_strlit("Downloads");
    lemma_below_home(resolver, "~/Downloads"@, "Downloads"@);
}

proof fn lemma_below_home(resolver: &PathResolver, raw: Seq<char>, below: Seq<char>)
    requires
        raw.len() == below.len() + 2,
        below.len() > 0,
        raw[0] == '~',
        raw[1] == '/',
        forall|i: int| 0 <= i < below.len() ==> raw[i + 2] == #[trigger] below[i],
    ensures
        resolver.leads_to(raw) == paths::joined(resolver.home@, below),
{
    assert(raw.skip(2) =~= below);
    assert(seq!['~', '/'] =~= raw.subrange(0, 2));
}

} // verus!

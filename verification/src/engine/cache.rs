//! Cache keys for a build: one per step, covering everything that has gone into
//! the rootfs by the time that step finishes. Two builds that agree up to step
//! `i` agree on `keys.steps[i]`, so the second starts from the first's rootfs.
//!
//! A key covers the environment and every step's script and user so far. It
//! leaves out:
//!
//!   * step names: a label, and renaming one shouldn't cost a rebuild;
//!   * a mount's contents, for steps whose script doesn't name where it lands,
//!     so editing a file one step installs doesn't re-run `apt-get`;
//!   * the base's digest, which only the builder knows and mixes in itself;
//!   * anything that never reaches the rootfs: the image's user and workdir, the
//!     builder's cpus and memory.
use crate::engine::error::{EngineError, EngineErrorView};
use crate::engine::model::{BuildMountView, BuildPlan, BuildPlanView, BuildStepView};
use crate::paths::PathBuf;
use crate::text;
use sha2::Digest;
use vstd::bytes::u64_to_le_bytes;
use vstd::prelude::*;

verus! {

/// The SHA-256 hash of some bytes, as the `sha2` crate computes it.
pub uninterp spec fn sha256(data: Seq<u8>) -> Seq<u8>;

/// The SHA-256 hash of `data`: `sha2::Sha256::digest`, which hashes the bytes it
/// is given and nothing else. The result is 32 bytes, the output size of
/// SHA-256; what those bytes are is not stated.
#[verifier::external_body]
fn sha256_of(data: &[u8]) -> (r: Vec<u8>)
    ensures
        r@ == sha256(data@),
        r@.len() == 32,
{
    sha2::Sha256::digest(data).to_vec()
}

// ---------------------------------------------------------------------------
// What a key is a hash of
// ---------------------------------------------------------------------------

/// A field as it is hashed: its length in eight bytes, least significant
/// first, then its bytes.
pub open spec fn field(value: Seq<u8>) -> Seq<u8> {
    vstd::bytes::spec_u64_to_le_bytes(value.len() as u64) + value
}

/// Fields as they are hashed, one after the other.
pub open spec fn fields(values: Seq<Seq<u8>>) -> Seq<u8>
    decreases values.len(),
{
    if values.len() == 0 {
        Seq::empty()
    } else {
        fields(values.drop_last()) + field(values.last())
    }
}

/// The key of some fields: the hash of their encoding, in hexadecimal.
pub open spec fn key_of(values: Seq<Seq<u8>>) -> Seq<char> {
    text::hex(sha256(fields(values)))
}

/// Texts as bytes.
pub open spec fn encoded(texts: Seq<Seq<char>>) -> Seq<Seq<u8>> {
    texts.map_values(|s: Seq<char>| text::utf8(s))
}

/// Whether a step's script names where a mount lands, and so reads it.
pub open spec fn is_read(script: Seq<char>, mount: BuildMountView) -> bool {
    text::contains_text(script, mount.destination)
}

/// Whether some step of a plan reads the mount of that index.
pub open spec fn is_wanted(plan: BuildPlanView, j: int) -> bool {
    exists|i: int|
        0 <= i < plan.steps.len() && is_read((#[trigger] plan.steps[i]).script, plan.mounts[j])
}

/// The digests of the mounts that a script reads, in the order of the mounts.
pub open spec fn read_digests(
    script: Seq<char>,
    mounts: Seq<BuildMountView>,
    digests: Seq<Seq<char>>,
) -> Seq<Seq<u8>>
    decreases mounts.len(),
{
    if mounts.len() == 0 {
        seq![]
    } else {
        let rest = read_digests(script, mounts.drop_last(), digests);
        if is_read(script, mounts.last()) {
            rest.push(text::utf8(digests[mounts.len() - 1]))
        } else {
            rest
        }
    }
}

/// The user that a step runs as: root, where none is named.
pub open spec fn runs_as(step: BuildStepView) -> Seq<char> {
    match step.user {
        Some(user) => user,
        None => "root"@,
    }
}

/// What one step adds to the key: its script, the user it runs as, and the
/// digests of the mounts it reads.
pub open spec fn step_fields(
    step: BuildStepView,
    mounts: Seq<BuildMountView>,
    digests: Seq<Seq<char>>,
) -> Seq<Seq<u8>> {
    seq![text::utf8(step.script), text::utf8(runs_as(step))] + read_digests(step.script, mounts, digests)
}

/// What goes into the key of an environment before any step has run.
pub open spec fn base_fields(environment: Seq<Seq<char>>) -> Seq<Seq<u8>> {
    seq![text::utf8("compostbin/build/1"@)] + encoded(environment)
}

/// What goes into the key once those steps have run.
pub open spec fn chain(
    environment: Seq<Seq<char>>,
    steps: Seq<BuildStepView>,
    mounts: Seq<BuildMountView>,
    digests: Seq<Seq<char>>,
) -> Seq<Seq<u8>>
    decreases steps.len(),
{
    if steps.len() == 0 {
        base_fields(environment)
    } else {
        chain(environment, steps.drop_last(), mounts, digests) + step_fields(
            steps.last(),
            mounts,
            digests,
        )
    }
}

// ---------------------------------------------------------------------------
// What a mount holds
// ---------------------------------------------------------------------------

/// What one entry under a mount contributes to its digest. A symlink counts as
/// its target path, not what it points at, and is tagged so that it cannot
/// collide with a file holding that same path.
#[derive(Debug, PartialEq, Eq)]
pub enum Entry {
    File { contents: Vec<u8>, executable: bool },
    Link { target: String },
}

/// An `Entry`, its contents as sequences.
pub enum EntryView {
    File { contents: Seq<u8>, executable: bool },
    Link { target: Seq<char> },
}

impl View for Entry {
    type V = EntryView;

    open spec fn view(&self) -> EntryView {
        match self {
            Entry::File { contents, executable } => EntryView::File {
                contents: contents@,
                executable: *executable,
            },
            Entry::Link { target } => EntryView::Link { target: target@ },
        }
    }
}

/// What reading a mount's source gave.
#[derive(Debug, PartialEq)]
pub enum Listing {
    /// No step reads the mount, so nobody looked.
    Unread,
    /// Something under it could not be read.
    Failed { path: PathBuf, reason: String },
    /// Every file and symlink under it, each with its path relative to the
    /// source.
    Read(Vec<(String, Entry)>),
}

/// What one entry adds to a mount's digest: its path, its kind, and its
/// contents.
pub open spec fn entry_fields(entry: (Seq<char>, EntryView)) -> Seq<Seq<u8>> {
    match entry.1 {
        EntryView::File { contents, executable } => seq![
            text::utf8(entry.0),
            text::utf8(if executable {
                "755"@
            } else {
                "644"@
            }),
            contents,
        ],
        EntryView::Link { target } => seq![
            text::utf8(entry.0),
            text::utf8("symlink"@),
            text::utf8(target),
        ],
    }
}

/// What the entries add to a mount's digest, in order.
pub open spec fn tree_fields(entries: Seq<(Seq<char>, EntryView)>) -> Seq<Seq<u8>>
    decreases entries.len(),
{
    if entries.len() == 0 {
        seq![]
    } else {
        tree_fields(entries.drop_last()) + entry_fields(entries.last())
    }
}

/// The digest of a mount: the key of its entries, in path order.
pub open spec fn tree_digest(entries: Seq<(Seq<char>, EntryView)>) -> Seq<char> {
    key_of(tree_fields(text::sorted(entries)))
}

/// The digests that listings give; one that was not read counts for nothing.
pub open spec fn listing_digests(listings: Seq<Listing>) -> Seq<Seq<char>> {
    listings.map_values(|listing: Listing|
        match listing {
            Listing::Read(entries) => tree_digest(text::views(entries@)),
            _ => Seq::empty(),
        })
}

/// The error for a mount that could not be read.
pub open spec fn unreadable_error(path: Seq<char>, reason: Seq<char>) -> EngineErrorView {
    EngineErrorView::Unavailable {
        action: "read the mounted directory at "@ + path,
        message: reason,
    }
}

// ---------------------------------------------------------------------------
// Computing keys
// ---------------------------------------------------------------------------

/// Takes one more field into the bytes to hash. Its length comes first, so `ab`,`c`
/// and `a`,`bc` differ.
fn take_field(bytes: &mut Vec<u8>, value: &[u8], Ghost(before): Ghost<Seq<Seq<u8>>>)
    requires
        old(bytes)@ == fields(before),
    ensures
        final(bytes)@ == fields(before.push(value@)),
{
    let length = u64_to_le_bytes(value.len() as u64);
    bytes.extend_from_slice(length.as_slice());
    bytes.extend_from_slice(value);
    assert(before.push(value@).drop_last() =~= before);
    assert(bytes@ =~= fields(before) + field(value@));
}

/// The hash of some bytes, in hexadecimal.
fn key_text(bytes: &Vec<u8>) -> (r: String)
    ensures
        r@ == text::hex(sha256(bytes@)),
{
    let hash = sha256_of(bytes.as_slice());
    text::hex_text(hash.as_slice())
}

/// Whether a step's script names where a mount lands.
fn reads(script: &str, destination: &str) -> (r: bool)
    ensures
        r == text::contains_text(script@, destination@),
{
    text::contains(script, destination)
}

/// What the digest of a mount is a hash of: every entry under its source, in path
/// order, because the order of a directory listing is the filesystem's.
pub fn hashed_tree(entries: Vec<(String, Entry)>) -> (r: Vec<u8>)
    ensures
        r@ == fields(tree_fields(text::sorted(text::views(entries@)))),
{
    let ghost listed = text::views(entries@);
    let ordered = text::sort_pairs(entries);
    let ghost sorted = text::sorted(listed);
    let ghost mut taken: Seq<Seq<u8>> = seq![];
    let mut bytes: Vec<u8> = Vec::new();
    assert(bytes@ =~= fields(taken));
    let mut i: usize = 0;
    assert(text::views(ordered@).len() == ordered@.len());
    assert(taken =~= tree_fields(sorted.take(0)));
    while i < ordered.len()
        invariant
            i <= ordered@.len(),
            sorted == text::views(ordered@),
            taken == tree_fields(sorted.take(i as int)),
            bytes@ == fields(taken),
        decreases ordered.len() - i,
    {
        let entry = &ordered[i];
        assert(sorted.take(i + 1).drop_last() =~= sorted.take(i as int));
        assert(sorted.take(i + 1).last() == entry@);
        let ghost before = taken;
        take_field(&mut bytes, entry.0.as_str().as_bytes(), Ghost(taken));
        proof {
            taken = taken.push(text::utf8(entry.0@));
        }
        match &entry.1 {
            Entry::File { contents, executable } => {
                let mode = if *executable {
                    "755"
                } else {
                    "644"
                };
                take_field(&mut bytes, mode.as_bytes(), Ghost(taken));
                proof {
                    taken = taken.push(text::utf8(mode@));
                }
                take_field(&mut bytes, contents.as_slice(), Ghost(taken));
                proof {
                    taken = taken.push(contents@);
                }
            },
            Entry::Link { target } => {
                take_field(&mut bytes, "symlink".as_bytes(), Ghost(taken));
                proof {
                    taken = taken.push(text::utf8("symlink"@));
                }
                take_field(&mut bytes, target.as_str().as_bytes(), Ghost(taken));
                proof {
                    taken = taken.push(text::utf8(target@));
                }
            },
        }
        assert(taken =~= before + entry_fields(entry@));
        i = i + 1;
    }
    assert(sorted.take(i as int) =~= sorted);
    bytes
}

/// One digest over every entry under a mount's source.
pub fn digest_of(entries: Vec<(String, Entry)>) -> (r: String)
    ensures
        r@ == tree_digest(text::views(entries@)),
{
    key_text(&hashed_tree(entries))
}

/// The error for a mount that could not be read.
pub fn unreadable(path: &PathBuf, reason: &str) -> (r: EngineError)
    ensures
        r@ == unreadable_error(path@, reason@),
{
    let mut action = "read the mounted directory at ".to_string();
    action.append(path.as_str());
    EngineError::unavailable(action.as_str(), reason)
}

#[derive(Debug, PartialEq, Eq)]
pub struct Keys {
    /// Before any step has run.
    pub base: String,
    /// `steps[i]`: after `plan.steps[i]` has run.
    pub steps: Vec<String>,
}

/// The keys of a plan, given the digests of its mounts.
pub open spec fn is_keys(keys: Keys, plan: BuildPlanView, digests: Seq<Seq<char>>) -> bool {
    &&& keys.base@ == key_of(base_fields(plan.environment))
    &&& keys.steps@.len() == plan.steps.len()
    &&& forall|i: int|
        0 <= i < plan.steps.len() ==> (#[trigger] keys.steps@[i])@ == key_of(
            chain(plan.environment, plan.steps.take(i + 1), plan.mounts, digests),
        )
}

/// Whether some step of a plan reads the mount of that index.
pub fn wants(plan: &BuildPlan, j: usize) -> (r: bool)
    requires
        j < plan.mounts@.len(),
    ensures
        r == is_wanted(plan@, j as int),
{
    let ghost mount = plan@.mounts[j as int];
    let mut i: usize = 0;
    while i < plan.steps.len()
        invariant
            i <= plan.steps@.len(),
            j < plan.mounts@.len(),
            mount == plan@.mounts[j as int],
            mount == plan.mounts@[j as int]@,
            forall|k: int| 0 <= k < i ==> !is_read((#[trigger] plan@.steps[k]).script, mount),
        decreases plan.steps.len() - i,
    {
        assert(plan@.steps[i as int] == plan.steps@[i as int]@);
        if reads(plan.steps[i].script.as_str(), plan.mounts[j].destination.as_str()) {
            assert(is_read(plan@.steps[i as int].script, plan@.mounts[j as int]));
            return true;
        }
        i = i + 1;
    }
    false
}

/// The key chain for `plan`. Looks at what a mount holds only when some step
/// reads it, so an untouched mount costs nothing to key.
pub fn keys(plan: &BuildPlan, listings: Vec<Listing>) -> (r: Result<Keys, EngineError>)
    requires
        listings@.len() == plan.mounts@.len(),
        forall|j: int|
            0 <= j < listings@.len() && is_wanted(plan@, j) ==> !(#[trigger] listings@[j] is Unread),
    ensures
        match r {
            Ok(keys) => {
                &&& is_keys(keys, plan@, listing_digests(listings@))
                &&& forall|j: int|
                    0 <= j < listings@.len() && is_wanted(plan@, j) ==> #[trigger] listings@[j]
                        is Read
            },
            Err(error) => exists|j: int|
                {
                    &&& 0 <= j < listings@.len()
                    &&& is_wanted(plan@, j)
                    &&& forall|k: int|
                        0 <= k < j && is_wanted(plan@, k) ==> #[trigger] listings@[k] is Read
                    &&& #[trigger] listings@[j] is Failed
                    &&& error@ == unreadable_error(
                        listings@[j]->Failed_path@,
                        listings@[j]->Failed_reason@,
                    )
                },
        },
{
    let ghost all = listings@;
    let ghost expected = listing_digests(all);
    let n: usize = listings.len();
    let mut rest = listings;
    let mut digests: Vec<String> = Vec::new();
    let mut j: usize = 0;
    while j < n
        invariant
            j <= n,
            all == listings@,
            n == all.len(),
            n == plan.mounts@.len(),
            rest@ == all.skip(j as int),
            expected == listing_digests(all),
            digests@.len() == j,
            forall|k: int|
                0 <= k < n && is_wanted(plan@, k) ==> !(#[trigger] all[k] is Unread),
            forall|k: int| 0 <= k < j && is_wanted(plan@, k) ==> #[trigger] all[k] is Read,
            forall|k: int| 0 <= k < j ==> (#[trigger] digests@[k])@ == expected[k],
        decreases n - j,
    {
        let listing = rest.remove(0);
        assert(listing == all[j as int]);
        assert(rest@ =~= all.skip(j + 1));
        let mut digest = String::new();
        match listing {
            Listing::Read(entries) => {
                digest = digest_of(entries);
            },
            Listing::Failed { path, reason } => {
                if wants(plan, j) {
                    assert(all[j as int] is Failed);
                    return Err(unreadable(&path, reason.as_str()));
                }
            },
            Listing::Unread => {},
        }
        assert(digest@ =~= expected[j as int]);
        digests.push(digest);
        j = j + 1;
    }
    assert(text::views(digests@) =~= expected);
    let hashed = hashed_chain(plan, &digests);
    let ghost view = plan@;
    assert(view.steps.take(0) =~= seq![]);
    let base = key_text(&hashed[0]);
    let mut steps: Vec<String> = Vec::new();
    let mut i: usize = 0;
    while i < plan.steps.len()
        invariant
            i <= plan.steps@.len(),
            view == plan@,
            hashed@.len() == plan.steps@.len() + 1,
            forall|k: int|
                0 <= k < hashed@.len() ==> (#[trigger] hashed@[k])@ == fields(
                    chain(view.environment, view.steps.take(k), view.mounts, expected),
                ),
            steps@.len() == i,
            forall|k: int|
                0 <= k < i ==> (#[trigger] steps@[k])@ == key_of(
                    chain(view.environment, view.steps.take(k + 1), view.mounts, expected),
                ),
        decreases plan.steps.len() - i,
    {
        steps.push(key_text(&hashed[i + 1]));
        i = i + 1;
    }
    Ok(Keys { base, steps })
}

/// What each key of a plan is a hash of, given the digest of every mount: first
/// the base's, then each step's, which continues the one before it.
pub fn hashed_chain(plan: &BuildPlan, digests: &Vec<String>) -> (r: Vec<Vec<u8>>)
    requires
        digests@.len() == plan.mounts@.len(),
    ensures
        r@.len() == plan.steps@.len() + 1,
        forall|i: int|
            0 <= i < r@.len() ==> (#[trigger] r@[i])@ == fields(
                chain(plan@.environment, plan@.steps.take(i), plan@.mounts, text::views(digests@)),
            ),
{
    let ghost view = plan@;
    let ghost given = text::views(digests@);
    let ghost mut taken: Seq<Seq<u8>> = seq![];
    let mut bytes: Vec<u8> = Vec::new();
    assert(bytes@ =~= fields(taken));
    take_field(&mut bytes, "compostbin/build/1".as_bytes(), Ghost(taken));
    proof {
        taken = taken.push(text::utf8("compostbin/build/1"@));
    }
    let mut e: usize = 0;
    assert(taken =~= seq![text::utf8("compostbin/build/1"@)] + encoded(view.environment.take(0)));
    while e < plan.environment.len()
        invariant
            e <= plan.environment@.len(),
            view == plan@,
            bytes@ == fields(taken),
            taken == seq![text::utf8("compostbin/build/1"@)] + encoded(
                view.environment.take(e as int),
            ),
        decreases plan.environment.len() - e,
    {
        let variable = &plan.environment[e];
        take_field(&mut bytes, variable.as_str().as_bytes(), Ghost(taken));
        proof {
            taken = taken.push(text::utf8(variable@));
            assert(view.environment[e as int] == variable@);
            assert(taken =~= seq![text::utf8("compostbin/build/1"@)] + encoded(
                view.environment.take(e + 1),
            ));
        }
        e = e + 1;
    }
    assert(view.environment.take(e as int) =~= view.environment);
    let mut out: Vec<Vec<u8>> = Vec::new();
    out.push(bytes.clone());
    let mut i: usize = 0;
    assert(view.steps.take(0) =~= seq![]);
    assert(plan.steps@.len() == view.steps.len());
    while i < plan.steps.len()
        invariant
            i <= plan.steps@.len(),
            view == plan@,
            given == text::views(digests@),
            digests@.len() == plan.mounts@.len(),
            bytes@ == fields(taken),
            taken == chain(view.environment, view.steps.take(i as int), view.mounts, given),
            out@.len() == i + 1,
            forall|k: int|
                0 <= k <= i ==> (#[trigger] out@[k])@ == fields(
                    chain(view.environment, view.steps.take(k), view.mounts, given),
                ),
        decreases plan.steps.len() - i,
    {
        let step = &plan.steps[i];
        let ghost before = taken;
        let ghost now = view.steps.take(i + 1);
        assert(now.drop_last() =~= view.steps.take(i as int));
        assert(now.last() == step@);
        take_field(&mut bytes, step.script.as_str().as_bytes(), Ghost(taken));
        proof {
            taken = taken.push(text::utf8(step.script@));
        }
        let user = match &step.user {
            Some(user) => user.as_str(),
            None => "root",
        };
        take_field(&mut bytes, user.as_bytes(), Ghost(taken));
        proof {
            taken = taken.push(text::utf8(user@));
        }
        let ghost opening = seq![text::utf8(step.script@), text::utf8(user@)];
        let mut m: usize = 0;
        assert(taken =~= before + (opening + read_digests(step.script@, view.mounts.take(0), given)));
        while m < plan.mounts.len()
            invariant
                m <= plan.mounts@.len(),
                view == plan@,
                given == text::views(digests@),
                digests@.len() == plan.mounts@.len(),
                bytes@ == fields(taken),
                taken == before + (opening + read_digests(
                    step.script@,
                    view.mounts.take(m as int),
                    given,
                )),
            decreases plan.mounts.len() - m,
        {
            let mount = &plan.mounts[m];
            let ghost some = view.mounts.take(m + 1);
            assert(some.drop_last() =~= view.mounts.take(m as int));
            assert(some.last() == mount@);
            assert(given[m as int] == digests@[m as int]@);
            if reads(step.script.as_str(), mount.destination.as_str()) {
                take_field(&mut bytes, digests[m].as_str().as_bytes(), Ghost(taken));
                proof {
                    taken = taken.push(text::utf8(given[m as int]));
                    assert(taken =~= before + (opening + read_digests(
                        step.script@,
                        some,
                        given,
                    )));
                }
            }
            m = m + 1;
        }
        assert(view.mounts.take(m as int) =~= view.mounts);
        assert(taken == chain(view.environment, now, view.mounts, given));
        out.push(bytes.clone());
        i = i + 1;
    }
    out
}

// ---------------------------------------------------------------------------
// Laws
// ---------------------------------------------------------------------------

proof fn lemma_fields_front(values: Seq<Seq<u8>>)
    requires
        values.len() > 0,
    ensures
        fields(values) == field(values[0]) + fields(values.skip(1)),
    decreases values.len(),
{
    let tail = values.skip(1);
    if values.len() == 1 {
        assert(values.drop_last() =~= seq![]);
        assert(tail =~= seq![]);
        assert(fields(values) =~= field(values[0]) + fields(tail));
    } else {
        let shorter = values.drop_last();
        lemma_fields_front(shorter);
        assert(shorter.skip(1) =~= tail.drop_last());
        assert(tail.last() == values.last());
        assert(fields(values) =~= field(values[0]) + fields(tail));
    }
}

/// The encoding of fields is unambiguous: two lists of fields with the same
/// encoding are the same list, so `ab`,`c` and `a`,`bc` differ.
pub proof fn law_fields_are_unambiguous(a: Seq<Seq<u8>>, b: Seq<Seq<u8>>)
    requires
        forall|i: int| 0 <= i < a.len() ==> (#[trigger] a[i]).len() <= u64::MAX,
        forall|i: int| 0 <= i < b.len() ==> (#[trigger] b[i]).len() <= u64::MAX,
        fields(a) == fields(b),
    ensures
        a == b,
    decreases a.len(),
{
    vstd::bytes::lemma_auto_spec_u64_to_from_le_bytes();
    if a.len() > 0 {
        lemma_fields_front(a);
    }
    if b.len() > 0 {
        lemma_fields_front(b);
    }
    if a.len() == 0 || b.len() == 0 {
        if a.len() > 0 {
            assert(fields(a).len() >= 8);
        }
        if b.len() > 0 {
            assert(fields(b).len() >= 8);
        }
        assert(a =~= b);
    } else {
        let whole = fields(a);
        let x = vstd::bytes::spec_u64_to_le_bytes(a[0].len() as u64);
        let y = vstd::bytes::spec_u64_to_le_bytes(b[0].len() as u64);
        assert(whole.take(8) =~= x);
        assert(whole.take(8) =~= y);
        assert(a[0].len() == b[0].len());
        let n = a[0].len() as int;
        assert(whole.subrange(8, 8 + n) =~= a[0]);
        assert(whole.subrange(8, 8 + n) =~= b[0]);
        assert(whole.skip(8 + n) =~= fields(a.skip(1)));
        assert(whole.skip(8 + n) =~= fields(b.skip(1)));
        assert forall|i: int| 0 <= i < a.skip(1).len() implies (#[trigger] a.skip(1)[i]).len()
            <= u64::MAX by {
            assert(a.skip(1)[i] == a[i + 1]);
        }
        assert forall|i: int| 0 <= i < b.skip(1).len() implies (#[trigger] b.skip(1)[i]).len()
            <= u64::MAX by {
            assert(b.skip(1)[i] == b[i + 1]);
        }
        law_fields_are_unambiguous(a.skip(1), b.skip(1));
        assert(a =~= seq![a[0]] + a.skip(1));
        assert(b =~= seq![b[0]] + b.skip(1));
    }
}

/// Whether two steps run the same script as the same user, and read the same
/// things from their mounts.
pub open spec fn same_work(
    a: BuildStepView,
    mounts: Seq<BuildMountView>,
    digests: Seq<Seq<char>>,
    b: BuildStepView,
    other_mounts: Seq<BuildMountView>,
    other_digests: Seq<Seq<char>>,
) -> bool {
    &&& a.script == b.script
    &&& runs_as(a) == runs_as(b)
    &&& read_digests(a.script, mounts, digests) == read_digests(
        b.script,
        other_mounts,
        other_digests,
    )
}

proof fn lemma_same_chain(
    environment: Seq<Seq<char>>,
    a: Seq<BuildStepView>,
    mounts: Seq<BuildMountView>,
    digests: Seq<Seq<char>>,
    b: Seq<BuildStepView>,
    other_mounts: Seq<BuildMountView>,
    other_digests: Seq<Seq<char>>,
)
    requires
        a.len() == b.len(),
        forall|k: int|
            0 <= k < a.len() ==> same_work(
                #[trigger] a[k],
                mounts,
                digests,
                b[k],
                other_mounts,
                other_digests,
            ),
    ensures
        chain(environment, a, mounts, digests) == chain(
            environment,
            b,
            other_mounts,
            other_digests,
        ),
    decreases a.len(),
{
    if a.len() > 0 {
        assert forall|k: int| 0 <= k < a.drop_last().len() implies same_work(
            #[trigger] a.drop_last()[k],
            mounts,
            digests,
            b.drop_last()[k],
            other_mounts,
            other_digests,
        ) by {
            assert(a.drop_last()[k] == a[k]);
        }
        lemma_same_chain(
            environment,
            a.drop_last(),
            mounts,
            digests,
            b.drop_last(),
            other_mounts,
            other_digests,
        );
        let last = a.len() - 1;
        assert(same_work(a[last], mounts, digests, b[last], other_mounts, other_digests));
    }
}

/// Two builds in the same environment that agree up to step `i` agree on the
/// key of step `i`: what their steps are called, and what comes after, does not
/// matter.
pub proof fn law_builds_that_agree_share_keys(
    plan: BuildPlanView,
    digests: Seq<Seq<char>>,
    keys: Keys,
    other: BuildPlanView,
    other_digests: Seq<Seq<char>>,
    other_keys: Keys,
    i: int,
)
    requires
        is_keys(keys, plan, digests),
        is_keys(other_keys, other, other_digests),
        plan.environment == other.environment,
        0 <= i < plan.steps.len(),
        i < other.steps.len(),
        forall|k: int|
            0 <= k <= i ==> same_work(
                #[trigger] plan.steps[k],
                plan.mounts,
                digests,
                other.steps[k],
                other.mounts,
                other_digests,
            ),
    ensures
        keys.base@ == other_keys.base@,
        keys.steps@[i]@ == other_keys.steps@[i]@,
{
    let a = plan.steps.take(i + 1);
    let b = other.steps.take(i + 1);
    assert forall|k: int| 0 <= k < a.len() implies same_work(
        #[trigger] a[k],
        plan.mounts,
        digests,
        b[k],
        other.mounts,
        other_digests,
    ) by {
        assert(a[k] == plan.steps[k]);
    }
    lemma_same_chain(
        plan.environment,
        a,
        plan.mounts,
        digests,
        b,
        other.mounts,
        other_digests,
    );
}

proof fn lemma_chain_extends(
    environment: Seq<Seq<char>>,
    steps: Seq<BuildStepView>,
    mounts: Seq<BuildMountView>,
    digests: Seq<Seq<char>>,
    k: int,
)
    requires
        0 <= k <= steps.len(),
    ensures
        chain(environment, steps.take(k), mounts, digests).is_prefix_of(
            chain(environment, steps, mounts, digests),
        ),
        k < steps.len() ==> chain(environment, steps, mounts, digests).len() >= chain(
            environment,
            steps.take(k),
            mounts,
            digests,
        ).len() + 2,
        k < steps.len() ==> ({
            let start = chain(environment, steps.take(k), mounts, digests).len() as int;
            let whole = chain(environment, steps, mounts, digests);
            &&& whole[start] == text::utf8(steps[k].script)
            &&& whole[start + 1] == text::utf8(runs_as(steps[k]))
        }),
    decreases steps.len(),
{
    let whole = chain(environment, steps, mounts, digests);
    let part = chain(environment, steps.take(k), mounts, digests);
    if k == steps.len() {
        assert(steps.take(k) =~= steps);
        assert(part =~= whole.subrange(0, part.len() as int));
    } else {
        let shorter = steps.drop_last();
        lemma_chain_extends(environment, shorter, mounts, digests, k);
        assert(shorter.take(k) =~= steps.take(k));
        let middle = chain(environment, shorter, mounts, digests);
        assert(part =~= whole.subrange(0, part.len() as int));
        if k == steps.len() - 1 {
            assert(middle == part);
        } else {
            assert(steps[k] == shorter[k]);
            assert(whole[part.len() as int] == middle[part.len() as int]);
            assert(whole[part.len() as int + 1] == middle[part.len() as int + 1]);
        }
    }
}

/// Two builds that agree before step `k`, and whose steps `k` run different
/// scripts or run them as different users, hash different fields for step `k`
/// and for every step after it.
pub proof fn law_a_changed_step_changes_every_later_key(
    environment: Seq<Seq<char>>,
    mounts: Seq<BuildMountView>,
    digests: Seq<Seq<char>>,
    steps: Seq<BuildStepView>,
    other: Seq<BuildStepView>,
    k: int,
    i: int,
    j: int,
)
    requires
        0 <= k <= i < steps.len(),
        k <= j < other.len(),
        steps.take(k) == other.take(k),
        steps[k].script != other[k].script || runs_as(steps[k]) != runs_as(other[k]),
    ensures
        chain(environment, steps.take(i + 1), mounts, digests) != chain(
            environment,
            other.take(j + 1),
            mounts,
            digests,
        ),
{
    let a = steps.take(i + 1);
    let b = other.take(j + 1);
    assert(a.take(k) =~= steps.take(k));
    assert(b.take(k) =~= other.take(k));
    lemma_chain_extends(environment, a, mounts, digests, k);
    lemma_chain_extends(environment, b, mounts, digests, k);
    let start = chain(environment, steps.take(k), mounts, digests).len() as int;
    assert(a[k] == steps[k] && b[k] == other[k]);
    text::lemma_utf8_injective(steps[k].script, other[k].script);
    text::lemma_utf8_injective(runs_as(steps[k]), runs_as(other[k]));
}

/// How many digests a script reads depends on where the mounts land alone.
proof fn lemma_as_many_digests(
    script: Seq<char>,
    mounts: Seq<BuildMountView>,
    digests: Seq<Seq<char>>,
    other_digests: Seq<Seq<char>>,
)
    ensures
        read_digests(script, mounts, digests).len() == read_digests(
            script,
            mounts,
            other_digests,
        ).len(),
    decreases mounts.len(),
{
    if mounts.len() > 0 {
        lemma_as_many_digests(script, mounts.drop_last(), digests, other_digests);
    }
}

proof fn lemma_same_start(
    environment: Seq<Seq<char>>,
    mounts: Seq<BuildMountView>,
    steps: Seq<BuildStepView>,
    digests: Seq<Seq<char>>,
    other: Seq<BuildStepView>,
    other_digests: Seq<Seq<char>>,
    k: int,
)
    requires
        steps.len() == other.len(),
        chain(environment, steps, mounts, digests) == chain(
            environment,
            other,
            mounts,
            other_digests,
        ),
        0 <= k <= steps.len(),
    ensures
        chain(environment, steps.take(k), mounts, digests) == chain(
            environment,
            other.take(k),
            mounts,
            other_digests,
        ),
        forall|j: int|
            0 <= j < k ==> same_work(
                #[trigger] steps[j],
                mounts,
                digests,
                other[j],
                mounts,
                other_digests,
            ),
    decreases k,
{
    if k == 0 {
        assert(steps.take(0) =~= other.take(0));
        assert(chain(environment, steps.take(0), mounts, digests) == base_fields(environment));
        assert(chain(environment, other.take(0), mounts, other_digests) == base_fields(
            environment,
        ));
    } else {
        let at = k - 1;
        lemma_same_start(environment, mounts, steps, digests, other, other_digests, at);
        lemma_chain_extends(environment, steps, mounts, digests, at);
        lemma_chain_extends(environment, other, mounts, other_digests, at);
        lemma_chain_extends(environment, steps, mounts, digests, k);
        lemma_chain_extends(environment, other, mounts, other_digests, k);
        let a = steps[at];
        let b = other[at];
        text::lemma_utf8_injective(a.script, b.script);
        text::lemma_utf8_injective(runs_as(a), runs_as(b));
        lemma_as_many_digests(a.script, mounts, digests, other_digests);
        assert(steps.take(k).drop_last() =~= steps.take(at));
        assert(other.take(k).drop_last() =~= other.take(at));
        let before = chain(environment, steps.take(at), mounts, digests);
        let x = chain(environment, steps.take(k), mounts, digests);
        let y = chain(environment, other.take(k), mounts, other_digests);
        let whole = chain(environment, steps, mounts, digests);
        assert(x == before + step_fields(a, mounts, digests));
        assert(y == before + step_fields(b, mounts, other_digests));
        assert(x =~= whole.subrange(0, x.len() as int));
        assert(y =~= whole.subrange(0, y.len() as int));
        assert(read_digests(a.script, mounts, digests) =~= x.skip(before.len() as int + 2));
        assert(read_digests(b.script, mounts, other_digests) =~= y.skip(before.len() as int + 2));
    }
}

/// Two builds in the same environment and with the same mounts that hash the same
/// fields for step `i` agree on every step up to it: they run the same scripts as
/// the same users, and read the same things.
pub proof fn law_builds_that_share_fields_agree(
    environment: Seq<Seq<char>>,
    mounts: Seq<BuildMountView>,
    steps: Seq<BuildStepView>,
    digests: Seq<Seq<char>>,
    other: Seq<BuildStepView>,
    other_digests: Seq<Seq<char>>,
    i: int,
    k: int,
)
    requires
        0 <= k <= i < steps.len(),
        i < other.len(),
        chain(environment, steps.take(i + 1), mounts, digests) == chain(
            environment,
            other.take(i + 1),
            mounts,
            other_digests,
        ),
    ensures
        same_work(steps[k], mounts, digests, other[k], mounts, other_digests),
{
    let a = steps.take(i + 1);
    let b = other.take(i + 1);
    lemma_same_start(environment, mounts, a, digests, b, other_digests, i + 1);
    assert(a[k] == steps[k] && b[k] == other[k]);
    assert(same_work(a[k], mounts, digests, b[k], mounts, other_digests));
}

/// Two environments that differ in a variable hash different fields for the
/// base and for every step.
pub proof fn law_the_environment_is_part_of_every_key(
    environment: Seq<Seq<char>>,
    steps: Seq<BuildStepView>,
    mounts: Seq<BuildMountView>,
    digests: Seq<Seq<char>>,
    other: Seq<Seq<char>>,
    other_steps: Seq<BuildStepView>,
    e: int,
)
    requires
        0 <= e < environment.len(),
        e < other.len(),
        environment[e] != other[e],
    ensures
        chain(environment, steps, mounts, digests) != chain(other, other_steps, mounts, digests),
{
    lemma_chain_extends(environment, steps, mounts, digests, 0);
    lemma_chain_extends(other, other_steps, mounts, digests, 0);
    assert(steps.take(0) =~= seq![]);
    assert(other_steps.take(0) =~= seq![]);
    assert(base_fields(environment)[e + 1] == text::utf8(environment[e]));
    assert(base_fields(other)[e + 1] == text::utf8(other[e]));
    let x = chain(environment, steps, mounts, digests);
    let y = chain(other, other_steps, mounts, digests);
    assert(x[e + 1] == base_fields(environment)[e + 1]) by {
        assert(x.subrange(0, base_fields(environment).len() as int)[e + 1] == x[e + 1]);
    }
    assert(y[e + 1] == base_fields(other)[e + 1]) by {
        assert(y.subrange(0, base_fields(other).len() as int)[e + 1] == y[e + 1]);
    }
    text::lemma_utf8_injective(environment[e], other[e]);
}

/// A symlink is keyed apart from a file of the same path, even one that holds
/// the link's target path.
pub proof fn law_links_are_keyed_apart_from_files(
    path: Seq<char>,
    target: Seq<char>,
    contents: Seq<u8>,
    executable: bool,
)
    ensures
        entry_fields((path, EntryView::Link { target })) != entry_fields(
            (path, EntryView::File { contents, executable }),
        ),
{
    let link = entry_fields((path, EntryView::Link { target }));
    let file = entry_fields((path, EntryView::File { contents, executable }));
    reveal_strlit("symlink");
    reveal_strlit("755");
    reveal_strlit("644");
    text::lemma_utf8_injective("symlink"@, "755"@);
    text::lemma_utf8_injective("symlink"@, "644"@);
    assert(link[1] != file[1]);
}

proof fn lemma_read_digests_differ(
    script: Seq<char>,
    mounts: Seq<BuildMountView>,
    digests: Seq<Seq<char>>,
    other: Seq<Seq<char>>,
    i: int,
)
    requires
        0 <= i < mounts.len(),
        is_read(script, mounts[i]),
        digests[i] != other[i],
    ensures
        read_digests(script, mounts, digests) != read_digests(script, mounts, other),
        read_digests(script, mounts, digests).len() == read_digests(script, mounts, other).len(),
    decreases mounts.len(),
{
    let rest = mounts.drop_last();
    let a = read_digests(script, rest, digests);
    let b = read_digests(script, rest, other);
    let x = read_digests(script, mounts, digests);
    let y = read_digests(script, mounts, other);
    lemma_read_digests_len(script, rest, digests, other);
    if i < rest.len() {
        assert(rest[i] == mounts[i]);
        lemma_read_digests_differ(script, rest, digests, other, i);
        if x == y && is_read(script, mounts.last()) {
            assert(a =~= x.drop_last());
            assert(b =~= y.drop_last());
        }
    } else {
        text::lemma_utf8_injective(digests[i], other[i]);
        if x == y {
            assert(x.last() == y.last());
        }
    }
}

proof fn lemma_read_digests_len(
    script: Seq<char>,
    mounts: Seq<BuildMountView>,
    digests: Seq<Seq<char>>,
    other: Seq<Seq<char>>,
)
    ensures
        read_digests(script, mounts, digests).len() == read_digests(script, mounts, other).len(),
    decreases mounts.len(),
{
    if mounts.len() > 0 {
        lemma_read_digests_len(script, mounts.drop_last(), digests, other);
    }
}

/// A step whose script names where a mount lands is keyed by what that mount holds:
/// a change there changes what the step adds to the key.
pub proof fn law_a_changed_mount_changes_the_steps_that_read_it(
    step: BuildStepView,
    mounts: Seq<BuildMountView>,
    digests: Seq<Seq<char>>,
    other: Seq<Seq<char>>,
    i: int,
)
    requires
        0 <= i < mounts.len(),
        text::contains_text(step.script, mounts[i].destination),
        digests[i] != other[i],
    ensures
        step_fields(step, mounts, digests) != step_fields(step, mounts, other),
{
    lemma_read_digests_differ(step.script, mounts, digests, other, i);
    let a = step_fields(step, mounts, digests);
    let b = step_fields(step, mounts, other);
    assert(read_digests(step.script, mounts, digests) =~= a.skip(2));
    assert(read_digests(step.script, mounts, other) =~= b.skip(2));
}

/// A step that names no mount is keyed by its script and its user alone; a mount that
/// no step names is not looked at.
pub proof fn law_an_unread_mount_costs_nothing(
    plan: BuildPlanView,
    step: BuildStepView,
    mounts: Seq<BuildMountView>,
    digests: Seq<Seq<char>>,
    j: int,
)
    ensures
        (forall|i: int|
            0 <= i < mounts.len() ==> !text::contains_text(
                step.script,
                (#[trigger] mounts[i]).destination,
            )) ==> step_fields(step, mounts, digests) == seq![
            text::utf8(step.script),
            text::utf8(
                match step.user {
                    Some(user) => user,
                    None => "root"@,
                },
            ),
        ],
        is_wanted(plan, j) <==> exists|i: int|
            0 <= i < plan.steps.len() && text::contains_text(
                (#[trigger] plan.steps[i]).script,
                plan.mounts[j].destination,
            ),
    decreases mounts.len(),
{
    if forall|i: int|
        0 <= i < mounts.len() ==> !text::contains_text(
            step.script,
            (#[trigger] mounts[i]).destination,
        ) {
        let rest = mounts.drop_last();
        if mounts.len() > 0 {
            assert forall|i: int| 0 <= i < rest.len() implies !text::contains_text(
                step.script,
                (#[trigger] rest[i]).destination,
            ) by {
                assert(rest[i] == mounts[i]);
            }
            law_an_unread_mount_costs_nothing(plan, step, rest, digests, j);
            assert(step_fields(step, rest, digests).skip(2) =~= read_digests(
                step.script,
                rest,
                digests,
            ));
            assert(!is_read(step.script, mounts[mounts.len() - 1]));
        }
        assert(read_digests(step.script, mounts, digests).len() == 0);
        assert(step_fields(step, mounts, digests) =~= seq![
            text::utf8(step.script),
            text::utf8(runs_as(step)),
        ]);
    }
    if is_wanted(plan, j) {
        let i = choose|i: int|
            0 <= i < plan.steps.len() && is_read((#[trigger] plan.steps[i]).script, plan.mounts[j]);
        assert(text::contains_text(plan.steps[i].script, plan.mounts[j].destination));
    }
    if exists|i: int|
        0 <= i < plan.steps.len() && text::contains_text(
            (#[trigger] plan.steps[i]).script,
            plan.mounts[j].destination,
        ) {
        let i = choose|i: int|
            0 <= i < plan.steps.len() && text::contains_text(
                (#[trigger] plan.steps[i]).script,
                plan.mounts[j].destination,
            );
        assert(is_read(plan.steps[i].script, plan.mounts[j]));
    }
}

/// What an entry adds to a digest tells where it is, whether it is a file or a link,
/// what it holds and whether it can be run: entries that differ in any of it differ
/// there.
pub proof fn law_entries_that_differ_are_keyed_apart(
    a: (Seq<char>, EntryView),
    b: (Seq<char>, EntryView),
)
    requires
        entry_fields(a) == entry_fields(b),
    ensures
        a == b,
{
    let x = entry_fields(a);
    let y = entry_fields(b);
    assert(x[0] == y[0] && x[1] == y[1] && x[2] == y[2]);
    text::lemma_utf8_injective(a.0, b.0);
    reveal_strlit("symlink");
    reveal_strlit("755");
    reveal_strlit("644");
    assert("755"@[0] == '7' && "644"@[0] == '6');
    text::lemma_utf8_injective("symlink"@, "755"@);
    text::lemma_utf8_injective("symlink"@, "644"@);
    text::lemma_utf8_injective("755"@, "644"@);
    if let EntryView::Link { target } = a.1 {
        if let EntryView::Link { target: other } = b.1 {
            text::lemma_utf8_injective(target, other);
        }
    }
}

proof fn lemma_tree_fields_len(entries: Seq<(Seq<char>, EntryView)>)
    ensures
        tree_fields(entries).len() == 3 * entries.len(),
    decreases entries.len(),
{
    if entries.len() > 0 {
        lemma_tree_fields_len(entries.drop_last());
    }
}

/// Two trees that differ in any entry differ in what is hashed of them: no entry is
/// left out, and none stands for another.
pub proof fn law_trees_that_differ_are_keyed_apart(
    a: Seq<(Seq<char>, EntryView)>,
    b: Seq<(Seq<char>, EntryView)>,
)
    requires
        tree_fields(a) == tree_fields(b),
    ensures
        a == b,
    decreases a.len(),
{
    lemma_tree_fields_len(a);
    lemma_tree_fields_len(b);
    if a.len() > 0 {
        let p = a.drop_last();
        let q = b.drop_last();
        lemma_tree_fields_len(p);
        lemma_tree_fields_len(q);
        let n = 3 * p.len() as int;
        assert(tree_fields(p) =~= tree_fields(a).subrange(0, n));
        assert(tree_fields(q) =~= tree_fields(b).subrange(0, n));
        assert(entry_fields(a.last()) =~= tree_fields(a).skip(n));
        assert(entry_fields(b.last()) =~= tree_fields(b).skip(n));
        law_trees_that_differ_are_keyed_apart(p, q);
        law_entries_that_differ_are_keyed_apart(a.last(), b.last());
        assert(a =~= p.push(a.last()));
        assert(b =~= q.push(b.last()));
    } else {
        assert(a =~= b);
    }
}

/// A key is the whole hash of its fields: two that are the same were hashed to the
/// same.
pub proof fn law_a_key_is_the_whole_hash(a: Seq<Seq<u8>>, b: Seq<Seq<u8>>)
    ensures
        key_of(a) == text::hex(sha256(fields(a))),
        key_of(a) == key_of(b) ==> sha256(fields(a)) == sha256(fields(b)),
{
    if key_of(a) == key_of(b) {
        text::lemma_hex_injective(sha256(fields(a)), sha256(fields(b)));
    }
}

/// Every step of a plan has the key of all that was run up to it and with it, and the
/// base that of the environment alone.
pub proof fn law_every_step_is_keyed_by_all_before_it(
    keys: Keys,
    plan: BuildPlanView,
    digests: Seq<Seq<char>>,
    i: int,
)
    requires
        is_keys(keys, plan, digests),
    ensures
        keys.base@ == text::hex(
            sha256(fields(chain(plan.environment, seq![], plan.mounts, digests))),
        ),
        keys.steps@.len() == plan.steps.len(),
        0 <= i < plan.steps.len() ==> keys.steps@[i]@ == text::hex(
            sha256(fields(chain(plan.environment, plan.steps.take(i + 1), plan.mounts, digests))),
        ),
{
}

/// Each mount that was read has the digest of everything it holds, in the order of
/// its paths.
pub proof fn law_a_read_mount_has_the_digest_of_what_it_holds(listings: Seq<Listing>, i: int)
    requires
        0 <= i < listings.len(),
    ensures
        listing_digests(listings).len() == listings.len(),
        listings[i] matches Listing::Read(entries) ==> listing_digests(listings)[i] == text::hex(
            sha256(fields(tree_fields(text::sorted(text::views(entries@))))),
        ),
{
}

} // verus!

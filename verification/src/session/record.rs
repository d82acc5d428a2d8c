//! What the container that is running now was actually started with.
//!
//! Mounts cannot be added to a running container, and `run` attaches to a live
//! one rather than recreating it. So a manifest edited mid-session is ignored
//! until the container is recreated, which without a record looks like a broken
//! feature.
use crate::engine::model::{Mount, MountView};
use crate::text;
use vstd::prelude::*;

verus! {

/// One mount as the container was created with it. Paths are texts: the record
/// is only ever compared, never resolved.
#[derive(Debug, PartialEq, Eq)]
pub struct RecordedMount {
    pub readonly: bool,
    pub source: String,
    pub target: String,
}

impl View for RecordedMount {
    type V = MountView;

    open spec fn view(&self) -> MountView {
        MountView { readonly: self.readonly, source: self.source@, target: self.target@ }
    }
}

/// A mount as a drift report shows it.
pub open spec fn described(mount: MountView) -> Seq<char> {
    mount.source + " -> "@ + mount.target + (if mount.readonly {
        ", readonly"@
    } else {
        Seq::empty()
    })
}

impl RecordedMount {
    fn of(mount: &Mount) -> (r: Self)
        ensures
            r@ == mount@,
    {
        RecordedMount {
            readonly: mount.readonly,
            source: mount.source.display(),
            target: mount.target.display(),
        }
    }

    fn describe(&self) -> (r: String)
        ensures
            r@ == described(self@),
    {
        let mut out = self.source.clone();
        out.append(" -> ");
        out.append(self.target.as_str());
        if self.readonly {
            out.append(", readonly");
        } else {
            assert(out@ =~= described(self@));
        }
        out
    }

    fn same(&self, other: &RecordedMount) -> (r: bool)
        ensures
            r == (self@ == other@),
    {
        self.readonly == other.readonly && text::same(self.source.as_str(), other.source.as_str())
            && text::same(self.target.as_str(), other.target.as_str())
    }
}

/// The mounts a container was created with.
#[derive(Debug, PartialEq, Eq)]
pub struct Record {
    pub mounts: Vec<RecordedMount>,
}

impl Default for Record {
    fn default() -> (r: Self)
        ensures
            r.mounts@.len() == 0,
    {
        Record { mounts: Vec::new() }
    }
}

/// Every way the manifest and the running container disagree, kept apart because
/// each reads differently: a mount the manifest gained is invisible in the
/// session, one it lost is still exposed, and one that moved points elsewhere.
#[derive(Debug, PartialEq, Eq)]
pub struct Drift {
    pub added: Vec<String>,
    pub changed: Vec<String>,
    pub removed: Vec<String>,
}

impl Default for Drift {
    fn default() -> (r: Self)
        ensures
            r.added@.len() == 0,
            r.changed@.len() == 0,
            r.removed@.len() == 0,
    {
        Drift { added: Vec::new(), changed: Vec::new(), removed: Vec::new() }
    }
}

/// The first of some mounts that lands at a guest path, if one does.
pub open spec fn landing_at(mounts: Seq<MountView>, target: Seq<char>) -> Option<MountView>
    decreases mounts.len(),
{
    if mounts.len() == 0 {
        None
    } else {
        match landing_at(mounts.drop_last(), target) {
            Some(mount) => Some(mount),
            None => if mounts.last().target == target {
                Some(mounts.last())
            } else {
                None
            },
        }
    }
}

/// How a mount that is not as it was recorded is reported.
pub open spec fn change(recorded: MountView, wanted: MountView) -> Seq<char> {
    wanted.target + " is "@ + described(recorded) + " in the container, not "@ + described(wanted)
}

/// The wanted mounts that were not recorded.
pub open spec fn added(recorded: Seq<MountView>, wanted: Seq<MountView>) -> Seq<Seq<char>>
    decreases wanted.len(),
{
    if wanted.len() == 0 {
        seq![]
    } else {
        let rest = added(recorded, wanted.drop_last());
        match landing_at(recorded, wanted.last().target) {
            None => rest.push(described(wanted.last())),
            Some(_) => rest,
        }
    }
}

/// The wanted mounts that were recorded otherwise.
pub open spec fn changed(recorded: Seq<MountView>, wanted: Seq<MountView>) -> Seq<Seq<char>>
    decreases wanted.len(),
{
    if wanted.len() == 0 {
        seq![]
    } else {
        let rest = changed(recorded, wanted.drop_last());
        match landing_at(recorded, wanted.last().target) {
            Some(mount) => if mount != wanted.last() {
                rest.push(change(mount, wanted.last()))
            } else {
                rest
            },
            None => rest,
        }
    }
}

/// The recorded mounts that are no longer wanted.
pub open spec fn removed(recorded: Seq<MountView>, wanted: Seq<MountView>) -> Seq<Seq<char>>
    decreases recorded.len(),
{
    if recorded.len() == 0 {
        seq![]
    } else {
        let rest = removed(recorded.drop_last(), wanted);
        match landing_at(wanted, recorded.last().target) {
            None => rest.push(described(recorded.last())),
            Some(_) => rest,
        }
    }
}

/// The first of some mounts that lands at a guest path.
fn find<'a>(mounts: &'a Vec<RecordedMount>, target: &str) -> (r: Option<&'a RecordedMount>)
    ensures
        match r {
            Some(mount) => landing_at(text::views(mounts@), target@) == Some(mount@),
            None => landing_at(text::views(mounts@), target@) is None,
        },
{
    let ghost all = text::views(mounts@);
    let mut i: usize = 0;
    assert(all.take(0) =~= seq![]);
    while i < mounts.len()
        invariant
            i <= mounts@.len(),
            all == text::views(mounts@),
            landing_at(all.take(i as int), target@) is None,
        decreases mounts.len() - i,
    {
        assert(all[i as int] == mounts@[i as int]@);
        assert(all.take(i + 1).drop_last() =~= all.take(i as int));
        assert(all.take(i + 1).last() == all[i as int]);
        if text::same(mounts[i].target.as_str(), target) {
            proof {
                lemma_landing_at(all, target@, i as int);
            }
            return Some(&mounts[i]);
        }
        i = i + 1;
    }
    assert(all.take(i as int) =~= all);
    None
}

proof fn lemma_landing_at(mounts: Seq<MountView>, target: Seq<char>, i: int)
    requires
        0 <= i < mounts.len(),
        landing_at(mounts.take(i), target) is None,
        mounts[i].target == target,
    ensures
        landing_at(mounts, target) == Some(mounts[i]),
    decreases mounts.len(),
{
    let rest = mounts.drop_last();
    if i < rest.len() {
        assert(rest.take(i) =~= mounts.take(i));
        lemma_landing_at(rest, target, i);
    } else {
        assert(rest =~= mounts.take(i));
    }
}

impl Record {
    pub fn of(mounts: &[Mount]) -> (r: Self)
        ensures
            text::views(r.mounts@) == text::views(mounts@),
    {
        let mut out: Vec<RecordedMount> = Vec::new();
        let mut i: usize = 0;
        while i < mounts.len()
            invariant
                i <= mounts@.len(),
                out@.len() == i,
                forall|j: int| 0 <= j < i ==> (#[trigger] out@[j])@ == mounts@[j]@,
            decreases mounts.len() - i,
        {
            out.push(RecordedMount::of(&mounts[i]));
            i = i + 1;
        }
        assert(text::views(out@) =~= text::views(mounts@));
        Record { mounts: out }
    }

    /// How the manifest's mounts differ from the ones the container really has.
    ///
    /// Matched by guest path, since that is what a session reaches for: a mount
    /// whose source moved is a *changed* mount rather than a removal and an add.
    pub fn drift(&self, wanted: &[Mount]) -> (r: Drift)
        ensures
            text::views(r.added@) == added(text::views(self.mounts@), text::views(wanted@)),
            text::views(r.changed@) == changed(text::views(self.mounts@), text::views(wanted@)),
            text::views(r.removed@) == removed(text::views(self.mounts@), text::views(wanted@)),
    {
        let ghost recorded = text::views(self.mounts@);
        let ghost asked = text::views(wanted@);
        let wanted = Record::of(wanted).mounts;
        assert(asked.len() == wanted@.len());
        let mut drift = Drift::default();
        let mut i: usize = 0;
        assert(text::views(drift.added@) =~= added(recorded, asked.take(0)));
        assert(text::views(drift.changed@) =~= changed(recorded, asked.take(0)));
        assert(text::views(drift.removed@) =~= removed(recorded.take(0), asked));
        while i < wanted.len()
            invariant
                i <= wanted@.len(),
                recorded == text::views(self.mounts@),
                asked == text::views(wanted@),
                text::views(drift.added@) == added(recorded, asked.take(i as int)),
                text::views(drift.changed@) == changed(recorded, asked.take(i as int)),
                text::views(drift.removed@) == removed(recorded.take(0), asked),
            decreases wanted.len() - i,
        {
            let mount = &wanted[i];
            assert(asked.take(i + 1).drop_last() =~= asked.take(i as int));
            assert(asked.take(i + 1).last() == mount@);
            match find(&self.mounts, mount.target.as_str()) {
                None => {
                    let shown = mount.describe();
                    proof {
                        text::lemma_views_push(drift.added@, shown);
                    }
                    drift.added.push(shown);
                },
                Some(found) => {
                    if !found.same(mount) {
                        let mut shown = mount.target.clone();
                        shown.append(" is ");
                        shown.append(found.describe().as_str());
                        shown.append(" in the container, not ");
                        shown.append(mount.describe().as_str());
                        proof {
                            text::lemma_views_push(drift.changed@, shown);
                        }
                        drift.changed.push(shown);
                    }
                },
            }
            i = i + 1;
        }
        assert(asked.take(i as int) =~= asked);
        let mut k: usize = 0;
        while k < self.mounts.len()
            invariant
                k <= self.mounts@.len(),
                recorded == text::views(self.mounts@),
                asked == text::views(wanted@),
                text::views(drift.added@) == added(recorded, asked),
                text::views(drift.changed@) == changed(recorded, asked),
                text::views(drift.removed@) == removed(recorded.take(k as int), asked),
            decreases self.mounts.len() - k,
        {
            let mount = &self.mounts[k];
            assert(recorded.take(k + 1).drop_last() =~= recorded.take(k as int));
            assert(recorded.take(k + 1).last() == mount@);
            match find(&wanted, mount.target.as_str()) {
                None => {
                    let shown = mount.describe();
                    proof {
                        text::lemma_views_push(drift.removed@, shown);
                    }
                    drift.removed.push(shown);
                },
                Some(_) => {},
            }
            k = k + 1;
        }
        assert(recorded.take(k as int) =~= recorded);
        drift
    }
}

pub const INVISIBLE: &'static str = "declared but not mounted, so invisible in the session";

pub const EXPOSED: &'static str = "mounted but no longer declared, so still exposed";

pub const DIFFERENT: &'static str = "mounted differently";

/// Mounts, each with the reason it is reported for.
pub open spec fn explained(mounts: Seq<Seq<char>>, reason: Seq<char>) -> Seq<Seq<char>> {
    mounts.map_values(|mount: Seq<char>| mount + " — "@ + reason)
}

fn explain(out: &mut Vec<String>, mounts: &Vec<String>, reason: &str)
    ensures
        text::views(final(out)@) == text::views(old(out)@) + explained(
            text::views(mounts@),
            reason@,
        ),
{
    let ghost before = text::views(out@);
    let ghost all = text::views(mounts@);
    let mut i: usize = 0;
    assert(before =~= before + explained(all.take(0), reason@));
    while i < mounts.len()
        invariant
            i <= mounts@.len(),
            all == text::views(mounts@),
            text::views(out@) == before + explained(all.take(i as int), reason@),
        decreases mounts.len() - i,
    {
        let mut line = mounts[i].clone();
        line.append(" — ");
        line.append(reason);
        proof {
            text::lemma_views_push(out@, line);
            assert(all[i as int] == mounts@[i as int]@);
            assert(before + explained(all.take(i + 1), reason@) =~= (before + explained(
                all.take(i as int),
                reason@,
            )).push(line@));
        }
        out.push(line);
        i = i + 1;
    }
    assert(all.take(i as int) =~= all);
}

/// One line per mount that disagrees.
pub open spec fn drift_lines(recorded: Seq<MountView>, wanted: Seq<MountView>) -> Seq<Seq<char>> {
    explained(added(recorded, wanted), INVISIBLE@) + explained(removed(recorded, wanted), EXPOSED@)
        + explained(changed(recorded, wanted), DIFFERENT@)
}

impl Drift {
    pub fn is_empty(&self) -> (r: bool)
        ensures
            r == (self.added@.len() == 0 && self.changed@.len() == 0 && self.removed@.len() == 0),
    {
        self.added.len() == 0 && self.changed.len() == 0 && self.removed.len() == 0
    }

    /// One line per disagreeing mount, phrased by what the user would otherwise
    /// see happen. A line each, because a mount is already two paths wide.
    pub fn lines(&self) -> (r: Vec<String>)
        ensures
            text::views(r@) == explained(text::views(self.added@), INVISIBLE@) + explained(
                text::views(self.removed@),
                EXPOSED@,
            ) + explained(text::views(self.changed@), DIFFERENT@),
    {
        let mut out: Vec<String> = Vec::new();
        explain(&mut out, &self.added, INVISIBLE);
        assert(text::views(out@) =~= explained(text::views(self.added@), INVISIBLE@));
        explain(&mut out, &self.removed, EXPOSED);
        explain(&mut out, &self.changed, DIFFERENT);
        out
    }
}

// ---------------------------------------------------------------------------
// Laws
// ---------------------------------------------------------------------------

proof fn lemma_landing_found(mounts: Seq<MountView>, i: int)
    requires
        0 <= i < mounts.len(),
    ensures
        landing_at(mounts, mounts[i].target) is Some,
        landing_at(mounts, mounts[i].target)->0.target == mounts[i].target,
        mounts.contains(landing_at(mounts, mounts[i].target)->0),
    decreases mounts.len(),
{
    let rest = mounts.drop_last();
    let target = mounts[i].target;
    if i < rest.len() {
        lemma_landing_found(rest, i);
        let k = choose|k: int|
            0 <= k < rest.len() && rest[k] == landing_at(rest, target)->0;
        assert(mounts[k] == rest[k]);
    } else {
        lemma_landing_is_member(rest, target);
        match landing_at(rest, target) {
            Some(mount) => {
                let k = choose|k: int| 0 <= k < rest.len() && rest[k] == mount;
                assert(mounts[k] == rest[k]);
            },
            None => {
                assert(mounts[i] == mounts.last());
            },
        }
    }
}

proof fn lemma_landing_is_member(mounts: Seq<MountView>, target: Seq<char>)
    ensures
        landing_at(mounts, target) matches Some(mount) ==> mounts.contains(mount) && mount.target
            == target,
    decreases mounts.len(),
{
    if mounts.len() > 0 {
        let rest = mounts.drop_last();
        lemma_landing_is_member(rest, target);
        match landing_at(rest, target) {
            Some(mount) => {
                let k = choose|k: int| 0 <= k < rest.len() && rest[k] == mount;
                assert(mounts[k] == rest[k]);
            },
            None => {
                assert(mounts[mounts.len() - 1] == mounts.last());
            },
        }
    }
}

/// Whether two mounts that land at the same guest path are the same mount.
pub open spec fn lands_apart(mounts: Seq<MountView>) -> bool {
    forall|i: int, j: int|
        0 <= i < mounts.len() && 0 <= j < mounts.len() && (#[trigger] mounts[i]).target == (
        #[trigger] mounts[j]).target ==> mounts[i] == mounts[j]
}

/// An unchanged manifest has not drifted from the container that was created
/// with it.
pub proof fn law_unchanged_mounts_have_not_drifted(mounts: Seq<MountView>)
    requires
        lands_apart(mounts),
    ensures
        added(mounts, mounts).len() == 0,
        changed(mounts, mounts).len() == 0,
        removed(mounts, mounts).len() == 0,
{
    assert(mounts.take(mounts.len() as int) =~= mounts);
    lemma_nothing_drifts(mounts, mounts.len() as int);
}

proof fn lemma_nothing_drifts(mounts: Seq<MountView>, n: int)
    requires
        lands_apart(mounts),
        0 <= n <= mounts.len(),
    ensures
        added(mounts, mounts.take(n)).len() == 0,
        changed(mounts, mounts.take(n)).len() == 0,
        removed(mounts.take(n), mounts).len() == 0,
    decreases n,
{
    if n > 0 {
        lemma_nothing_drifts(mounts, n - 1);
        assert(mounts.take(n).drop_last() =~= mounts.take(n - 1));
        assert(mounts.take(n).last() == mounts[n - 1]);
        lemma_landing_found(mounts, n - 1);
        let found = landing_at(mounts, mounts[n - 1].target)->0;
        let k = choose|k: int| 0 <= k < mounts.len() && mounts[k] == found;
        assert(mounts[k] == mounts[n - 1]);
    }
}

/// Where nothing has drifted, every wanted mount is in the container as it is
/// wanted, and nothing is in the container at a guest path that is not wanted.
pub proof fn law_no_drift_means_nothing_differs(recorded: Seq<MountView>, wanted: Seq<MountView>)
    requires
        added(recorded, wanted).len() == 0,
        changed(recorded, wanted).len() == 0,
        removed(recorded, wanted).len() == 0,
    ensures
        forall|i: int| 0 <= i < wanted.len() ==> recorded.contains(#[trigger] wanted[i]),
        forall|i: int|
            0 <= i < recorded.len() ==> landing_at(wanted, (#[trigger] recorded[i]).target) is Some,
{
    lemma_wanted_are_recorded(recorded, wanted);
    lemma_recorded_are_wanted(recorded, wanted);
}

proof fn lemma_wanted_are_recorded(recorded: Seq<MountView>, wanted: Seq<MountView>)
    requires
        added(recorded, wanted).len() == 0,
        changed(recorded, wanted).len() == 0,
    ensures
        forall|i: int| 0 <= i < wanted.len() ==> recorded.contains(#[trigger] wanted[i]),
    decreases wanted.len(),
{
    if wanted.len() > 0 {
        let rest = wanted.drop_last();
        lemma_wanted_are_recorded(recorded, rest);
        lemma_landing_is_member(recorded, wanted.last().target);
        assert forall|i: int| 0 <= i < wanted.len() implies recorded.contains(
            #[trigger] wanted[i],
        ) by {
            if i < rest.len() {
                assert(wanted[i] == rest[i]);
            }
        }
    }
}

proof fn lemma_recorded_are_wanted(recorded: Seq<MountView>, wanted: Seq<MountView>)
    requires
        removed(recorded, wanted).len() == 0,
    ensures
        forall|i: int|
            0 <= i < recorded.len() ==> landing_at(wanted, (#[trigger] recorded[i]).target) is Some,
    decreases recorded.len(),
{
    if recorded.len() > 0 {
        let rest = recorded.drop_last();
        lemma_recorded_are_wanted(rest, wanted);
        assert forall|i: int| 0 <= i < recorded.len() implies landing_at(
            wanted,
            (#[trigger] recorded[i]).target,
        ) is Some by {
            if i < rest.len() {
                assert(recorded[i] == rest[i]);
            }
        }
    }
}

/// Whether no mount lands at a guest path.
pub open spec fn none_at(mounts: Seq<MountView>, target: Seq<char>) -> bool {
    forall|j: int| 0 <= j < mounts.len() ==> (#[trigger] mounts[j]).target != target
}

proof fn lemma_landing_none(mounts: Seq<MountView>, target: Seq<char>)
    ensures
        landing_at(mounts, target) is None <==> none_at(mounts, target),
{
    lemma_landing_is_member(mounts, target);
    if landing_at(mounts, target) is None {
        assert forall|j: int| 0 <= j < mounts.len() implies (#[trigger] mounts[j]).target
            != target by {
            if mounts[j].target == target {
                lemma_landing_found(mounts, j);
            }
        }
    } else {
        let mount = landing_at(mounts, target)->0;
        let k = choose|k: int| 0 <= k < mounts.len() && mounts[k] == mount;
        assert(mounts[k].target == target);
    }
}

proof fn lemma_landing_first(mounts: Seq<MountView>, j: int)
    requires
        0 <= j < mounts.len(),
        none_at(mounts.take(j), mounts[j].target),
    ensures
        landing_at(mounts, mounts[j].target) == Some(mounts[j]),
{
    lemma_landing_none(mounts.take(j), mounts[j].target);
    lemma_landing_at(mounts, mounts[j].target, j);
}

proof fn lemma_added(recorded: Seq<MountView>, wanted: Seq<MountView>, line: Seq<char>)
    ensures
        added(recorded, wanted).contains(line) <==> exists|i: int|
            0 <= i < wanted.len() && none_at(recorded, (#[trigger] wanted[i]).target)
                && described(wanted[i]) == line,
    decreases wanted.len(),
{
    if wanted.len() > 0 {
        let rest = wanted.drop_last();
        let last = wanted.last();
        let shorter = added(recorded, rest);
        let whole = added(recorded, wanted);
        lemma_added(recorded, rest, line);
        lemma_landing_none(recorded, last.target);
        assert(wanted[wanted.len() - 1] == last);
        if shorter.contains(line) {
            let k = choose|k: int| 0 <= k < shorter.len() && shorter[k] == line;
            assert(whole[k] == line);
            let i = choose|i: int|
                0 <= i < rest.len() && none_at(recorded, (#[trigger] rest[i]).target)
                    && described(rest[i]) == line;
            assert(wanted[i] == rest[i]);
        }
        if none_at(recorded, last.target) && described(last) == line {
            assert(whole[whole.len() - 1] == line);
        }
        if whole.contains(line) && !shorter.contains(line) {
            let k = choose|k: int| 0 <= k < whole.len() && whole[k] == line;
            assert(k == whole.len() - 1) by {
                if k < shorter.len() {
                    assert(shorter[k] == line);
                }
            }
        }
        if exists|i: int|
            0 <= i < wanted.len() && none_at(recorded, (#[trigger] wanted[i]).target)
                && described(wanted[i]) == line {
            let i = choose|i: int|
                0 <= i < wanted.len() && none_at(recorded, (#[trigger] wanted[i]).target)
                    && described(wanted[i]) == line;
            if i < rest.len() {
                assert(rest[i] == wanted[i]);
            }
        }
    }
}

proof fn lemma_removed(recorded: Seq<MountView>, wanted: Seq<MountView>, line: Seq<char>)
    ensures
        removed(recorded, wanted).contains(line) <==> exists|i: int|
            0 <= i < recorded.len() && none_at(wanted, (#[trigger] recorded[i]).target)
                && described(recorded[i]) == line,
    decreases recorded.len(),
{
    if recorded.len() > 0 {
        let rest = recorded.drop_last();
        let last = recorded.last();
        let shorter = removed(rest, wanted);
        let whole = removed(recorded, wanted);
        lemma_removed(rest, wanted, line);
        lemma_landing_none(wanted, last.target);
        assert(recorded[recorded.len() - 1] == last);
        if shorter.contains(line) {
            let k = choose|k: int| 0 <= k < shorter.len() && shorter[k] == line;
            assert(whole[k] == line);
            let i = choose|i: int|
                0 <= i < rest.len() && none_at(wanted, (#[trigger] rest[i]).target)
                    && described(rest[i]) == line;
            assert(recorded[i] == rest[i]);
        }
        if none_at(wanted, last.target) && described(last) == line {
            assert(whole[whole.len() - 1] == line);
        }
        if whole.contains(line) && !shorter.contains(line) {
            let k = choose|k: int| 0 <= k < whole.len() && whole[k] == line;
            assert(k == whole.len() - 1) by {
                if k < shorter.len() {
                    assert(shorter[k] == line);
                }
            }
        }
        if exists|i: int|
            0 <= i < recorded.len() && none_at(wanted, (#[trigger] recorded[i]).target)
                && described(recorded[i]) == line {
            let i = choose|i: int|
                0 <= i < recorded.len() && none_at(wanted, (#[trigger] recorded[i]).target)
                    && described(recorded[i]) == line;
            if i < rest.len() {
                assert(rest[i] == recorded[i]);
            }
        }
    }
}

proof fn lemma_changed(recorded: Seq<MountView>, wanted: Seq<MountView>, line: Seq<char>)
    ensures
        changed(recorded, wanted).contains(line) <==> exists|i: int|
            0 <= i < wanted.len() && (landing_at(recorded, (#[trigger] wanted[i]).target)
                matches Some(mount) && mount != wanted[i] && change(mount, wanted[i]) == line),
    decreases wanted.len(),
{
    if wanted.len() > 0 {
        let rest = wanted.drop_last();
        let last = wanted.last();
        let shorter = changed(recorded, rest);
        let whole = changed(recorded, wanted);
        lemma_changed(recorded, rest, line);
        assert(wanted[wanted.len() - 1] == last);
        if shorter.contains(line) {
            let k = choose|k: int| 0 <= k < shorter.len() && shorter[k] == line;
            assert(whole[k] == line);
            let i = choose|i: int|
                0 <= i < rest.len() && (landing_at(recorded, (#[trigger] rest[i]).target)
                    matches Some(mount) && mount != rest[i] && change(mount, rest[i]) == line);
            assert(wanted[i] == rest[i]);
        }
        if landing_at(recorded, last.target) matches Some(mount) && mount != last && change(
            mount,
            last,
        ) == line {
            assert(whole[whole.len() - 1] == line);
        }
        if whole.contains(line) && !shorter.contains(line) {
            let k = choose|k: int| 0 <= k < whole.len() && whole[k] == line;
            assert(k == whole.len() - 1) by {
                if k < shorter.len() {
                    assert(shorter[k] == line);
                }
            }
        }
        if exists|i: int|
            0 <= i < wanted.len() && (landing_at(recorded, (#[trigger] wanted[i]).target)
                matches Some(mount) && mount != wanted[i] && change(mount, wanted[i]) == line) {
            let i = choose|i: int|
                0 <= i < wanted.len() && (landing_at(recorded, (#[trigger] wanted[i]).target)
                    matches Some(mount) && mount != wanted[i] && change(mount, wanted[i]) == line);
            if i < rest.len() {
                assert(rest[i] == wanted[i]);
            }
        }
    }
}

/// Every wanted mount at whose guest path nothing was mounted is reported as added,
/// by where it comes from, where it lands and whether it is read-only; and nothing
/// else is.
pub proof fn law_every_added_mount_is_reported(
    recorded: Seq<MountView>,
    wanted: Seq<MountView>,
    line: Seq<char>,
)
    ensures
        added(recorded, wanted).contains(line) <==> exists|i: int|
            0 <= i < wanted.len() && (forall|j: int|
                0 <= j < recorded.len() ==> (#[trigger] recorded[j]).target != wanted[i].target)
                && line == (#[trigger] wanted[i]).source + " -> "@ + wanted[i].target + (
            if wanted[i].readonly {
                ", readonly"@
            } else {
                Seq::empty()
            }),
{
    lemma_added(recorded, wanted, line);
    if added(recorded, wanted).contains(line) {
        let i = choose|i: int|
            0 <= i < wanted.len() && none_at(recorded, (#[trigger] wanted[i]).target) && described(
                wanted[i],
            ) == line;
        assert(wanted[i] == wanted[i]);
    }
    if exists|i: int|
        0 <= i < wanted.len() && (forall|j: int|
            0 <= j < recorded.len() ==> (#[trigger] recorded[j]).target != wanted[i].target) && line
            == (#[trigger] wanted[i]).source + " -> "@ + wanted[i].target + (
        if wanted[i].readonly {
            ", readonly"@
        } else {
            Seq::empty()
        }) {
        let i = choose|i: int|
            0 <= i < wanted.len() && (forall|j: int|
                0 <= j < recorded.len() ==> (#[trigger] recorded[j]).target != wanted[i].target)
                && line == (#[trigger] wanted[i]).source + " -> "@ + wanted[i].target + (
            if wanted[i].readonly {
                ", readonly"@
            } else {
                Seq::empty()
            });
        assert(none_at(recorded, wanted[i].target) && described(wanted[i]) == line);
    }
}

/// Every mount of the container at whose guest path nothing is wanted any more is
/// reported as removed; and nothing else is.
pub proof fn law_every_removed_mount_is_reported(
    recorded: Seq<MountView>,
    wanted: Seq<MountView>,
    line: Seq<char>,
)
    ensures
        removed(recorded, wanted).contains(line) <==> exists|i: int|
            0 <= i < recorded.len() && (forall|j: int|
                0 <= j < wanted.len() ==> (#[trigger] wanted[j]).target != recorded[i].target)
                && line == (#[trigger] recorded[i]).source + " -> "@ + recorded[i].target + (
            if recorded[i].readonly {
                ", readonly"@
            } else {
                Seq::empty()
            }),
{
    lemma_removed(recorded, wanted, line);
    if removed(recorded, wanted).contains(line) {
        let i = choose|i: int|
            0 <= i < recorded.len() && none_at(wanted, (#[trigger] recorded[i]).target)
                && described(recorded[i]) == line;
        assert(recorded[i] == recorded[i]);
    }
    if exists|i: int|
        0 <= i < recorded.len() && (forall|j: int|
            0 <= j < wanted.len() ==> (#[trigger] wanted[j]).target != recorded[i].target) && line
            == (#[trigger] recorded[i]).source + " -> "@ + recorded[i].target + (
        if recorded[i].readonly {
            ", readonly"@
        } else {
            Seq::empty()
        }) {
        let i = choose|i: int|
            0 <= i < recorded.len() && (forall|j: int|
                0 <= j < wanted.len() ==> (#[trigger] wanted[j]).target != recorded[i].target)
                && line == (#[trigger] recorded[i]).source + " -> "@ + recorded[i].target + (
            if recorded[i].readonly {
                ", readonly"@
            } else {
                Seq::empty()
            });
        assert(none_at(wanted, recorded[i].target) && described(recorded[i]) == line);
    }
}

/// Every wanted mount that the container has otherwise is reported as changed: the
/// first mount of the container at its guest path differs from it in its source or
/// in whether it is read-only. The line begins with that guest path, and shows both.
pub proof fn law_every_changed_mount_is_reported(
    recorded: Seq<MountView>,
    wanted: Seq<MountView>,
    i: int,
    j: int,
)
    requires
        0 <= i < wanted.len(),
        0 <= j < recorded.len(),
        recorded[j].target == wanted[i].target,
        forall|k: int| 0 <= k < j ==> (#[trigger] recorded[k]).target != wanted[i].target,
        recorded[j].source != wanted[i].source || recorded[j].readonly != wanted[i].readonly,
    ensures
        exists|line: Seq<char>| #[trigger]
            changed(recorded, wanted).contains(line) && wanted[i].target.is_prefix_of(line)
                && text::contains_text(
                line,
                recorded[j].source + " -> "@ + recorded[j].target + (if recorded[j].readonly {
                    ", readonly"@
                } else {
                    Seq::empty()
                }),
            ) && text::contains_text(
                line,
                wanted[i].source + " -> "@ + wanted[i].target + (if wanted[i].readonly {
                    ", readonly"@
                } else {
                    Seq::empty()
                }),
            ),
{
    assert(none_at(recorded.take(j), recorded[j].target)) by {
        assert forall|k: int| 0 <= k < j implies (#[trigger] recorded.take(j)[k]).target
            != recorded[j].target by {
            assert(recorded.take(j)[k] == recorded[k]);
        }
    }
    lemma_landing_first(recorded, j);
    let was = recorded[j];
    let now = wanted[i];
    let line = change(was, now);
    lemma_changed(recorded, wanted, line);
    let a = described(was);
    let b = described(now);
    assert(now.target =~= line.subrange(0, now.target.len() as int));
    let from = (now.target + " is "@).len() as int;
    assert(line.subrange(from, from + a.len()) =~= a);
    let to = (now.target + " is "@ + a + " in the container, not "@).len() as int;
    assert(line.subrange(to, to + b.len()) =~= b);
    assert(changed(recorded, wanted).contains(line));
}

/// Nothing is reported as changed but a wanted mount that differs from what the
/// container has at its guest path.
pub proof fn law_only_changed_mounts_are_reported(
    recorded: Seq<MountView>,
    wanted: Seq<MountView>,
    line: Seq<char>,
)
    requires
        changed(recorded, wanted).contains(line),
    ensures
        exists|i: int, j: int|
            0 <= i < wanted.len() && 0 <= j < recorded.len() && (#[trigger] recorded[j]).target == (
            #[trigger] wanted[i]).target && recorded[j] != wanted[i] && wanted[i].target.is_prefix_of(
                line,
            ),
{
    lemma_changed(recorded, wanted, line);
    let i = choose|i: int|
        0 <= i < wanted.len() && (landing_at(recorded, (#[trigger] wanted[i]).target) matches Some(
            mount,
        ) && mount != wanted[i] && change(mount, wanted[i]) == line);
    let mount = landing_at(recorded, wanted[i].target)->0;
    lemma_landing_is_member(recorded, wanted[i].target);
    let j = choose|j: int| 0 <= j < recorded.len() && recorded[j] == mount;
    assert(wanted[i].target =~= line.subrange(0, wanted[i].target.len() as int));
    assert(recorded[j].target == wanted[i].target);
}

/// Every mount that drifted has its line, and every line is one of them with the
/// reason it is there for.
pub proof fn law_every_drifted_mount_has_its_line(
    recorded: Seq<MountView>,
    wanted: Seq<MountView>,
)
    ensures
        drift_lines(recorded, wanted).len() == added(recorded, wanted).len() + removed(
            recorded,
            wanted,
        ).len() + changed(recorded, wanted).len(),
        forall|k: int|
            0 <= k < added(recorded, wanted).len() ==> drift_lines(recorded, wanted).contains(
                #[trigger] added(recorded, wanted)[k] + " — "@ + INVISIBLE@,
            ),
        forall|k: int|
            0 <= k < removed(recorded, wanted).len() ==> drift_lines(recorded, wanted).contains(
                #[trigger] removed(recorded, wanted)[k] + " — "@ + EXPOSED@,
            ),
        forall|k: int|
            0 <= k < changed(recorded, wanted).len() ==> drift_lines(recorded, wanted).contains(
                #[trigger] changed(recorded, wanted)[k] + " — "@ + DIFFERENT@,
            ),
{
    let lines = drift_lines(recorded, wanted);
    let a = added(recorded, wanted);
    let b = removed(recorded, wanted);
    let c = changed(recorded, wanted);
    assert forall|k: int| 0 <= k < a.len() implies lines.contains(
        #[trigger] a[k] + " — "@ + INVISIBLE@,
    ) by {
        assert(lines[k] == a[k] + " — "@ + INVISIBLE@);
    }
    assert forall|k: int| 0 <= k < b.len() implies lines.contains(
        #[trigger] b[k] + " — "@ + EXPOSED@,
    ) by {
        assert(lines[a.len() + k] == b[k] + " — "@ + EXPOSED@);
    }
    assert forall|k: int| 0 <= k < c.len() implies lines.contains(
        #[trigger] c[k] + " — "@ + DIFFERENT@,
    ) by {
        assert(lines[a.len() + b.len() + k] == c[k] + " — "@ + DIFFERENT@);
    }
}

} // verus!

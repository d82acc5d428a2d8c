//! What can be wrong about what the container can see: a declared path that is
//! not there, a link that dies at the mount boundary, a mount set the running
//! container never got, and a mount that hands over too much.
use crate::doctor;
use crate::doctor::{check, listed, Check, CheckView, Status};
use crate::error::ManifestError;
use crate::manifest::PathEntryView;
use crate::paths::PathBuf;
use crate::session::record;
use crate::session::record::Record;
use crate::session::Session;
use crate::text;
use crate::workspace::danger;
use crate::workspace::danger::{Danger, DangerView};
use crate::workspace::{EntryView, Escape, Escapes, WALK_LIMIT};
use vstd::prelude::*;

verus! {

// ---------------------------------------------------------------------------
// Declared paths
// ---------------------------------------------------------------------------

/// The paths the manifest declares: roots, then explicit paths.
pub open spec fn declarations(session: &Session) -> Seq<Seq<char>> {
    session.roots() + text::views(session.manifest.paths@).map_values(
        |entry: PathEntryView| session.resolver.leads_to(entry.source),
    )
}

/// Those of some paths that are not there.
pub open spec fn missing(paths: Seq<Seq<char>>, present: Seq<bool>) -> Seq<Seq<char>>
    decreases paths.len(),
{
    if paths.len() == 0 {
        seq![]
    } else {
        let rest = missing(paths.drop_last(), present);
        if present[paths.len() - 1] {
            rest
        } else {
            rest.push(paths.last())
        }
    }
}

/// What is said of the declared paths.
pub open spec fn paths_check(session: &Session, present: Seq<bool>) -> CheckView {
    let gone = missing(declarations(session), present);
    if gone.len() == 0 {
        doctor::plain("mounted paths"@, Status::Pass, "every declared path exists"@)
    } else {
        doctor::heading(
            "mounted paths"@,
            Status::Fail,
            "declared, but missing on the host"@,
            gone,
        )
    }
}

/// Roots and explicit paths only. The assistant's home is excluded: `run` creates it,
/// so its absence before the first session is normal.
pub fn declared(session: &Session) -> (r: Vec<PathBuf>)
    ensures
        text::views(r@) == declarations(session),
{
    let mut out = session.resolved_roots();
    let ghost roots = session.roots();
    let ghost listed = text::views(session.manifest.paths@);
    let ghost led = listed.map_values(
        |entry: PathEntryView| session.resolver.leads_to(entry.source),
    );
    let mut i: usize = 0;
    assert(text::views(out@) =~= roots + led.take(0));
    while i < session.manifest.paths.len()
        invariant
            i <= session.manifest.paths@.len(),
            listed == text::views(session.manifest.paths@),
            led == listed.map_values(
                |entry: PathEntryView| session.resolver.leads_to(entry.source),
            ),
            text::views(out@) == roots + led.take(i as int),
        decreases session.manifest.paths.len() - i,
    {
        assert(listed[i as int] == session.manifest.paths@[i as int]@);
        let path = session.resolve(session.manifest.paths[i].source.as_str());
        proof {
            text::lemma_views_push(out@, path);
        }
        out.push(path);
        assert(text::views(out@) =~= roots + led.take(i + 1));
        i = i + 1;
    }
    assert(led.take(i as int) =~= led);
    out
}

/// Whether every declared path is there, given which of `declared` are.
pub fn mounted_paths(session: &Session, present: &Vec<bool>) -> (r: Check)
    requires
        present@.len() == declarations(session).len(),
    ensures
        r@ == paths_check(session, present@),
{
    let paths = declared(session);
    let ghost all = text::views(paths@);
    let mut gone: Vec<String> = Vec::new();
    let mut i: usize = 0;
    assert(text::views(gone@) =~= missing(all.take(0), present@));
    while i < paths.len()
        invariant
            i <= paths@.len(),
            present@.len() == paths@.len(),
            all == text::views(paths@),
            text::views(gone@) == missing(all.take(i as int), present@),
        decreases paths.len() - i,
    {
        assert(all.take(i + 1).drop_last() =~= all.take(i as int));
        assert(all.take(i + 1).last() == paths@[i as int]@);
        if !present[i] {
            let path = paths[i].display();
            proof {
                text::lemma_views_push(gone@, path);
            }
            gone.push(path);
        }
        i = i + 1;
    }
    assert(all.take(i as int) =~= all);
    assert(text::views(gone@).len() == gone@.len());
    if gone.len() == 0 {
        return check("mounted paths", Status::Pass, "every declared path exists".to_string());
    }
    listed(
        "mounted paths",
        Status::Fail,
        "declared, but missing on the host".to_string(),
        gone,
    )
}

// ---------------------------------------------------------------------------
// Links
// ---------------------------------------------------------------------------

/// How many links are named before the rest are counted.
pub const NAMED: usize = 5;

/// The line that names an escape.
pub open spec fn escape_line(escape: Escape) -> Seq<char> {
    escape.link@ + " -> "@ + escape.target@
}

/// The lines that name escapes: the first of them, and how many more there are.
/// In the list rather than the sentence, so the sentence stays true however many
/// were named.
pub open spec fn escape_lines(escapes: Seq<Escape>) -> Seq<Seq<char>> {
    let named = if escapes.len() <= NAMED {
        escapes
    } else {
        escapes.take(NAMED as int)
    };
    let lines = named.map_values(|escape: Escape| escape_line(escape));
    if escapes.len() > NAMED {
        lines.push("and "@ + text::decimal((escapes.len() - NAMED) as nat) + " more"@)
    } else {
        lines
    }
}

/// What is said of the links that escape the mounted trees.
pub open spec fn links_check(found: Escapes) -> CheckView {
    if found.escapes@.len() == 0 {
        doctor::plain(
            "dangling symlinks"@,
            Status::Pass,
            if found.exhausted {
                "none in the first "@ + text::decimal(WALK_LIMIT as nat)
                    + " entries; the mounted trees are too large to walk in full"@
            } else {
                "no symlink escapes the mounted trees"@
            },
        )
    } else {
        doctor::heading(
            "dangling symlinks"@,
            Status::Warn,
            "dead in the container, because the target is not mounted"@,
            escape_lines(found.escapes@),
        )
    }
}

/// A symlink that resolves on the host and dangles in the container, its target
/// being outside every mounted tree. Nothing else reports it: the file is simply
/// not there.
///
/// A warning, not a failure: the session runs, and the fix (mount the target, or
/// stop relying on the link) is the user's call.
pub fn dangling_symlinks(found: &Escapes) -> (r: Check)
    ensures
        r@ == links_check(*found),
{
    let count: usize = found.escapes.len();
    if count == 0 {
        let detail = if found.exhausted {
            let mut detail = "none in the first ".to_string();
            detail.append(text::decimal_text(WALK_LIMIT as u128).as_str());
            detail.append(" entries; the mounted trees are too large to walk in full");
            detail
        } else {
            "no symlink escapes the mounted trees".to_string()
        };
        return check("dangling symlinks", Status::Pass, detail);
    }
    let most: usize = if count <= NAMED {
        count
    } else {
        NAMED
    };
    let mut lines: Vec<String> = Vec::new();
    let mut i: usize = 0;
    while i < most
        invariant
            i <= most <= found.escapes@.len(),
            lines@.len() == i,
            forall|j: int| 0 <= j < i ==> (#[trigger] lines@[j])@ == escape_line(found.escapes@[j]),
        decreases most - i,
    {
        let mut line = found.escapes[i].link.display();
        line.append(" -> ");
        line.append(found.escapes[i].target.as_str());
        lines.push(line);
        i = i + 1;
    }
    if count > NAMED {
        let mut line = "and ".to_string();
        line.append(text::decimal_text((count - NAMED) as u128).as_str());
        line.append(" more");
        lines.push(line);
    }
    assert(text::views(lines@) =~= escape_lines(found.escapes@));
    listed(
        "dangling symlinks",
        Status::Warn,
        "dead in the container, because the target is not mounted".to_string(),
        lines,
    )
}

// ---------------------------------------------------------------------------
// The running container
// ---------------------------------------------------------------------------

/// What is said of a running container, given what it was started with.
pub open spec fn recorded_check(session: &Session, recorded: Record) -> CheckView {
    let lines = record::drift_lines(text::views(recorded.mounts@), session.mounted());
    if lines.len() == 0 {
        doctor::plain(
            "container mounts"@,
            Status::Pass,
            session.container() + " is running with the mounts the manifest declares"@,
        )
    } else {
        doctor::heading(
            "container mounts"@,
            Status::Warn,
            session.container()
                + " was started before the manifest changed; mounts cannot be added to a running container, so `compostbin stop` then `compostbin run`"@,
            lines,
        )
    }
}

/// What is said of the running container's mounts, given whether it is running, or
/// why that cannot be told.
pub open spec fn live_check(
    session: &Session,
    running: Result<bool, String>,
    recorded: Result<Option<Record>, ManifestError>,
) -> CheckView {
    match running {
        Err(reason) => doctor::plain(
            "container mounts"@,
            Status::Fail,
            "cannot tell whether "@ + session.container() + " is running: "@ + reason@,
        ),
        Ok(false) => doctor::plain(
            "container mounts"@,
            Status::Pass,
            session.container()
                + " is not running, so the next `compostbin run` mounts what the manifest says"@,
        ),
        Ok(true) => match recorded {
            Ok(Some(recorded)) => recorded_check(session, recorded),
            Ok(None) => doctor::plain(
                "container mounts"@,
                Status::Warn,
                session.container()
                    + " is running but nothing recorded what it was started with; `compostbin stop` then `compostbin run` to be sure"@,
            ),
            Err(error) => doctor::plain("container mounts"@, Status::Warn, error.sentence()),
        },
    }
}

fn recorded_mounts(session: &Session, recorded: &Record) -> (r: Check)
    ensures
        r@ == recorded_check(session, *recorded),
{
    let wanted = session.mounts();
    let drift = recorded.drift(wanted.as_slice());
    let lines = drift.lines();
    let mut detail = session.container_name();
    if drift.is_empty() {
        assert(lines@.len() == text::views(lines@).len());
        detail.append(" is running with the mounts the manifest declares");
        return check("container mounts", Status::Pass, detail);
    }
    detail.append(
        " was started before the manifest changed; mounts cannot be added to a running container, so `compostbin stop` then `compostbin run`",
    );
    listed("container mounts", Status::Warn, detail, lines)
}

/// Whether the running container has the mounts the manifest describes. `run`
/// attaches to a live container, and mounts cannot be added to one, so a manifest
/// edited mid-session takes effect once the container is recreated and not
/// before. Nothing else says so: the path is simply missing in the guest, which
/// reads as the feature being broken.
///
/// A warning, not a failure (recreating the container is the user's call), but
/// the fix is named, because it is not guessable.
pub fn live_mounts(
    session: &Session,
    running: &Result<bool, String>,
    recorded: &Result<Option<Record>, ManifestError>,
) -> (r: Check)
    ensures
        r@ == live_check(session, *running, *recorded),
{
    match running {
        Err(reason) => {
            let mut detail = "cannot tell whether ".to_string();
            detail.append(session.container_name().as_str());
            detail.append(" is running: ");
            detail.append(reason.as_str());
            check("container mounts", Status::Fail, detail)
        },
        Ok(up) => {
            let mut detail = session.container_name();
            if !*up {
                detail.append(
                    " is not running, so the next `compostbin run` mounts what the manifest says",
                );
                return check("container mounts", Status::Pass, detail);
            }
            match recorded {
                Ok(Some(recorded)) => recorded_mounts(session, recorded),
                Ok(None) => {
                    detail.append(
                        " is running but nothing recorded what it was started with; `compostbin stop` then `compostbin run` to be sure",
                    );
                    check("container mounts", Status::Warn, detail)
                },
                Err(error) => check("container mounts", Status::Warn, error.to_string()),
            }
        },
    }
}

// ---------------------------------------------------------------------------
// Breadth
// ---------------------------------------------------------------------------

/// The line that reports a dangerous mount.
pub open spec fn danger_line(host: Seq<char>, found: DangerView) -> Seq<char> {
    match found {
        DangerView::Broad(_) => host
            + " covers a whole account, so the container can read and rewrite all of it"@,
        DangerView::Sensitive(path) => host + " is mounted, exposing the credentials in "@ + path,
    }
}

/// The lines that report the dangerous among some mounts, given where each really
/// is.
pub open spec fn danger_lines(
    session: &Session,
    entries: Seq<EntryView>,
    led_to: Seq<Seq<char>>,
) -> Seq<Seq<char>>
    decreases entries.len(),
{
    if entries.len() == 0 {
        seq![]
    } else {
        let rest = danger_lines(session, entries.drop_last(), led_to);
        match danger::verdict(led_to[entries.len() - 1], &session.resolver) {
            Some(found) => rest.push(danger_line(entries.last().host, found)),
            None => rest,
        }
    }
}

/// What is said of how far the mounts reach.
pub open spec fn breadth_check(session: &Session, led_to: Seq<Seq<char>>) -> CheckView {
    let dangerous = danger_lines(session, session.exposed(), led_to);
    if dangerous.len() == 0 {
        doctor::plain(
            "mount breadth"@,
            Status::Pass,
            "no mount covers an account or a secret"@,
        )
    } else {
        doctor::heading(
            "mount breadth"@,
            Status::Warn,
            "a mount reaches past the project"@,
            dangerous,
        )
    }
}

/// Every mounted path, not only roots: a hand-edited manifest bypasses `add`'s
/// refusal. Each is judged by where it really is (`led_to`), so that a secret is
/// found behind a link or a `..` too.
pub fn root_breadth(session: &Session, led_to: &Vec<PathBuf>) -> (r: Check)
    requires
        led_to@.len() == session.exposed().len(),
    ensures
        r@ == breadth_check(session, text::views(led_to@)),
{
    let workspace = session.workspace();
    let entries = workspace.entries();
    let ghost all = session.exposed();
    let ghost places = text::views(led_to@);
    let mut dangerous: Vec<String> = Vec::new();
    let mut i: usize = 0;
    assert(entries@.len() == text::views(entries@).len());
    assert(text::views(dangerous@) =~= danger_lines(session, all.take(0), places));
    while i < entries.len()
        invariant
            i <= entries@.len(),
            all == text::views(entries@),
            all.len() == entries@.len(),
            led_to@.len() == entries@.len(),
            places == text::views(led_to@),
            text::views(dangerous@) == danger_lines(session, all.take(i as int), places),
        decreases entries.len() - i,
    {
        assert(all.take(i + 1).drop_last() =~= all.take(i as int));
        assert(all.take(i + 1).last() == entries@[i as int]@);
        assert(places[i as int] == led_to@[i as int]@);
        match danger::danger(&led_to[i], session.resolver()) {
            Some(found) => {
                let mut line = entries[i].host.display();
                match &found {
                    Danger::Broad(_) => {
                        line.append(
                            " covers a whole account, so the container can read and rewrite all of it",
                        );
                    },
                    Danger::Sensitive(path) => {
                        line.append(" is mounted, exposing the credentials in ");
                        line.append(path.as_str());
                    },
                }
                proof {
                    text::lemma_views_push(dangerous@, line);
                }
                dangerous.push(line);
            },
            None => {},
        }
        i = i + 1;
    }
    assert(all.take(i as int) =~= all);
    assert(text::views(dangerous@).len() == dangerous@.len());
    if dangerous.len() == 0 {
        return check(
            "mount breadth",
            Status::Pass,
            "no mount covers an account or a secret".to_string(),
        );
    }
    listed(
        "mount breadth",
        Status::Warn,
        "a mount reaches past the project".to_string(),
        dangerous,
    )
}

// ---------------------------------------------------------------------------
// Laws
// ---------------------------------------------------------------------------

proof fn lemma_missing(paths: Seq<Seq<char>>, present: Seq<bool>, i: int)
    requires
        0 <= i < paths.len(),
        !present[i],
    ensures
        missing(paths, present).contains(paths[i]),
    decreases paths.len(),
{
    let rest = missing(paths.drop_last(), present);
    let whole = missing(paths, present);
    if i == paths.len() - 1 {
        assert(whole[whole.len() - 1] == paths[i]);
    } else {
        lemma_missing(paths.drop_last(), present, i);
        let k = rest.index_of(paths[i]);
        assert(whole[k] == paths[i]);
    }
}

/// A declared path that is not there fails the check, which names it.
pub proof fn law_every_missing_path_is_named(session: &Session, present: Seq<bool>, i: int)
    requires
        0 <= i < declarations(session).len(),
        !present[i],
    ensures
        paths_check(session, present).status == Status::Fail,
        paths_check(session, present).items.contains(declarations(session)[i]),
{
    lemma_missing(declarations(session), present, i);
}

proof fn lemma_dangers(
    session: &Session,
    entries: Seq<EntryView>,
    led_to: Seq<Seq<char>>,
    i: int,
)
    requires
        0 <= i < entries.len(),
        danger::verdict(led_to[i], &session.resolver) is Some,
    ensures
        danger_lines(session, entries, led_to).contains(
            danger_line(entries[i].host, danger::verdict(led_to[i], &session.resolver)->0),
        ),
    decreases entries.len(),
{
    let line = danger_line(entries[i].host, danger::verdict(led_to[i], &session.resolver)->0);
    let shorter = entries.drop_last();
    let rest = danger_lines(session, shorter, led_to);
    let whole = danger_lines(session, entries, led_to);
    if i == entries.len() - 1 {
        assert(whole[whole.len() - 1] == line);
    } else {
        lemma_dangers(session, shorter, led_to, i);
        assert(shorter[i] == entries[i]);
        let k = rest.index_of(line);
        assert(whole[k] == line);
    }
}

/// A mount that `add` would have refused is warned about, however it got into the
/// manifest.
pub proof fn law_every_dangerous_mount_is_reported(
    session: &Session,
    led_to: Seq<Seq<char>>,
    i: int,
)
    requires
        0 <= i < session.exposed().len(),
        danger::verdict(led_to[i], &session.resolver) is Some,
    ensures
        breadth_check(session, led_to).status == Status::Warn,
        breadth_check(session, led_to).items.contains(
            danger_line(
                session.exposed()[i].host,
                danger::verdict(led_to[i], &session.resolver)->0,
            ),
        ),
{
    lemma_dangers(session, session.exposed(), led_to, i);
}

/// Every root and every path of the manifest is looked for, where it leads.
pub proof fn law_every_declaration_is_looked_for(session: &Session, i: int)
    ensures
        ({
            let roots = session.manifest.workspace.roots@;
            let paths = session.manifest.paths@;
            let all = declarations(session);
            &&& all.len() == roots.len() + paths.len()
            &&& 0 <= i < roots.len() ==> all[i] == session.resolver.leads_to(roots[i]@)
            &&& 0 <= i < paths.len() ==> all[roots.len() + i] == session.resolver.leads_to(
                paths[i].source@,
            )
        }),
{
}

proof fn lemma_only_missing(paths: Seq<Seq<char>>, present: Seq<bool>)
    ensures
        forall|k: int|
            0 <= k < missing(paths, present).len() ==> exists|i: int|
                0 <= i < paths.len() && !present[i] && #[trigger] paths[i] == #[trigger] missing(
                    paths,
                    present,
                )[k],
    decreases paths.len(),
{
    if paths.len() > 0 {
        let shorter = paths.drop_last();
        let rest = missing(shorter, present);
        let whole = missing(paths, present);
        lemma_only_missing(shorter, present);
        assert forall|k: int| 0 <= k < whole.len() implies exists|i: int|
            0 <= i < paths.len() && !present[i] && #[trigger] paths[i] == #[trigger] whole[k] by {
            if k < rest.len() {
                assert(whole[k] == rest[k]);
                let i = choose|i: int|
                    0 <= i < shorter.len() && !present[i] && #[trigger] shorter[i] == rest[k];
                assert(paths[i] == whole[k]);
            } else {
                assert(paths[paths.len() - 1] == whole[k]);
            }
        }
    }
}

/// The check of the declared paths passes exactly where each is there, and names
/// none that is.
pub proof fn law_only_missing_paths_are_named(session: &Session, present: Seq<bool>)
    requires
        present.len() == declarations(session).len(),
    ensures
        ({
            let check = paths_check(session, present);
            &&& check.status == Status::Pass <==> forall|i: int|
                0 <= i < present.len() ==> #[trigger] present[i]
            &&& check.status == Status::Pass || check.status == Status::Fail
            &&& forall|k: int|
                0 <= k < check.items.len() ==> exists|i: int|
                    0 <= i < present.len() && !present[i] && #[trigger] declarations(session)[i]
                        == #[trigger] check.items[k]
        }),
{
    let all = declarations(session);
    lemma_only_missing(all, present);
    let gone = missing(all, present);
    if exists|i: int| 0 <= i < present.len() && !#[trigger] present[i] {
        let i = choose|i: int| 0 <= i < present.len() && !#[trigger] present[i];
        lemma_missing(all, present, i);
    }
    if gone.len() > 0 {
        let i = choose|i: int| 0 <= i < all.len() && !present[i] && #[trigger] all[i] == gone[0];
        assert(!present[i]);
    }
}

/// Links that escape are warned about, and only they are: the first five are named,
/// each with where it leads, and the rest are counted. A walk that could not look at
/// everything says so.
pub proof fn law_escapes_are_named_or_counted(found: Escapes, i: int)
    ensures
        ({
            let escapes = found.escapes@;
            let check = links_check(found);
            &&& check.status == (if escapes.len() == 0 {
                Status::Pass
            } else {
                Status::Warn
            })
            &&& 0 <= i < escapes.len() && i < 5 ==> i < check.items.len() && check.items[i]
                == escapes[i].link@ + " -> "@ + escapes[i].target@
            &&& escapes.len() <= 5 ==> check.items.len() == escapes.len()
            &&& escapes.len() > 5 ==> check.items.len() == 6 && check.items[5] == "and "@
                + text::decimal((escapes.len() - 5) as nat) + " more"@
            &&& escapes.len() == 0 && found.exhausted ==> text::contains_text(
                check.detail,
                "50000"@,
            )
        }),
{
    let escapes = found.escapes@;
    if escapes.len() == 0 && found.exhausted {
        let detail = links_check(found).detail;
        reveal_with_fuel(text::decimal, 6);
        reveal_strlit("50000");
        reveal_strlit("none in the first ");
        assert(text::decimal(50000) =~= "50000"@);
        assert(detail.subrange(18int, 18int + "50000"@.len() as int) =~= "50000"@);
    }
}

/// A running container is warned about exactly where what it was started with is not
/// known, or is not what the manifest declares now; one that is not running never
/// is. That it cannot be told is a failure.
pub proof fn law_a_stale_container_is_warned_about(
    session: &Session,
    running: Result<bool, String>,
    recorded: Result<Option<Record>, ManifestError>,
)
    ensures
        ({
            let check = live_check(session, running, recorded);
            &&& check.status == Status::Fail <==> running is Err
            &&& check.status == Status::Warn <==> running == Ok::<bool, String>(true)
                && match recorded {
                Ok(Some(recorded)) => record::drift_lines(
                    text::views(recorded.mounts@),
                    session.mounted(),
                ).len() > 0,
                _ => true,
            }
            &&& running == Ok::<bool, String>(true) ==> match recorded {
                Ok(Some(recorded)) => check.items == record::drift_lines(
                    text::views(recorded.mounts@),
                    session.mounted(),
                ),
                _ => true,
            }
        }),
{
    if let Ok(Some(recorded)) = recorded {
        let lines = record::drift_lines(text::views(recorded.mounts@), session.mounted());
        if lines.len() == 0 {
            assert(lines =~= seq![]);
        }
    }
}

proof fn lemma_no_dangers(session: &Session, entries: Seq<EntryView>, led_to: Seq<Seq<char>>)
    requires
        forall|i: int|
            0 <= i < entries.len() ==> danger::verdict(
                #[trigger] led_to[i],
                &session.resolver,
            ) is None,
    ensures
        danger_lines(session, entries, led_to).len() == 0,
    decreases entries.len(),
{
    if entries.len() > 0 {
        lemma_no_dangers(session, entries.drop_last(), led_to);
        assert(danger::verdict(led_to[entries.len() - 1], &session.resolver) is None);
    }
}

/// The breadth of the mounts passes exactly where none of them is dangerous; what
/// makes one so is named with it.
pub proof fn law_only_dangerous_mounts_are_reported(session: &Session, led_to: Seq<Seq<char>>)
    ensures
        breadth_check(session, led_to).status == Status::Pass <==> forall|i: int|
            0 <= i < session.exposed().len() ==> danger::verdict(
                #[trigger] led_to[i],
                &session.resolver,
            ) is None,
        breadth_check(session, led_to).status != Status::Fail,
        forall|host: Seq<char>, found: DangerView|
            host.is_prefix_of(#[trigger] danger_line(host, found)) && match found {
                DangerView::Sensitive(path) => path.is_suffix_of(danger_line(host, found)),
                DangerView::Broad(_) => true,
            },
{
    let all = session.exposed();
    if forall|i: int|
        0 <= i < all.len() ==> danger::verdict(#[trigger] led_to[i], &session.resolver) is None {
        lemma_no_dangers(session, all, led_to);
    } else {
        let i = choose|i: int|
            0 <= i < all.len() && danger::verdict(#[trigger] led_to[i], &session.resolver) is Some;
        lemma_dangers(session, all, led_to, i);
    }
    assert forall|host: Seq<char>, found: DangerView|
        host.is_prefix_of(#[trigger] danger_line(host, found)) && match found {
            DangerView::Sensitive(path) => path.is_suffix_of(danger_line(host, found)),
            DangerView::Broad(_) => true,
        } by {
        let line = danger_line(host, found);
        assert(host =~= line.subrange(0, host.len() as int));
        if let DangerView::Sensitive(path) = found {
            assert(path =~= line.subrange(line.len() - path.len(), line.len() as int));
        }
    }
}

} // verus!

//! Terminal rendering of a diagnosis.
use crate::doctor::{Check, CheckView, Status};
use crate::text;
use vstd::prelude::*;

verus! {

/// How a verdict is labelled.
pub open spec fn label_of(status: Status) -> Seq<char> {
    match status {
        Status::Fail => "FAIL"@,
        Status::Pass => "ok  "@,
        Status::Warn => "warn"@,
    }
}

/// Findings, one to a line. Indented, not aligned past the label: findings are
/// usually paths and need the columns.
pub open spec fn findings(items: Seq<Seq<char>>) -> Seq<char>
    decreases items.len(),
{
    if items.len() == 0 {
        Seq::empty()
    } else {
        findings(items.drop_last()) + "    "@ + items.last() + "\n"@
    }
}

/// A check, as the terminal shows it.
pub open spec fn shown(check: CheckView) -> Seq<char> {
    label_of(check.status) + "  "@ + check.name + ": "@ + check.detail + "\n"@ + findings(
        check.items,
    )
}

/// Every check, as the terminal shows it.
pub open spec fn all_shown(checks: Seq<CheckView>) -> Seq<char>
    decreases checks.len(),
{
    if checks.len() == 0 {
        Seq::empty()
    } else {
        all_shown(checks.drop_last()) + shown(checks.last())
    }
}

fn show(check: &Check) -> (r: String)
    ensures
        r@ == shown(check@),
{
    let mut out = match check.status {
        Status::Fail => "FAIL".to_string(),
        Status::Pass => "ok  ".to_string(),
        Status::Warn => "warn".to_string(),
    };
    out.append("  ");
    out.append(check.name.as_str());
    out.append(": ");
    out.append(check.detail.as_str());
    out.append("\n");
    let ghost start = out@;
    let ghost all = text::views(check.items@);
    let mut i: usize = 0;
    assert(out@ =~= start + findings(all.take(0)));
    while i < check.items.len()
        invariant
            i <= check.items@.len(),
            all == text::views(check.items@),
            out@ == start + findings(all.take(i as int)),
        decreases check.items.len() - i,
    {
        assert(all.take(i + 1).drop_last() =~= all.take(i as int));
        assert(all.take(i + 1).last() == check.items@[i as int]@);
        out.append("    ");
        out.append(check.items[i].as_str());
        out.append("\n");
        assert(out@ =~= start + findings(all.take(i + 1)));
        i = i + 1;
    }
    assert(all.take(i as int) =~= all);
    out
}

/// Every check, as the terminal shows it.
#[derive(Debug)]
pub struct Diagnosis<'a>(pub &'a Vec<Check>);

impl<'a> Diagnosis<'a> {
    /// The text that the terminal shows.
    pub fn to_string(&self) -> (r: String)
        ensures
            r@ == all_shown(text::views(self.0@)),
    {
        let checks = self.0;
        let ghost all = text::views(checks@);
        let mut out = String::new();
        let mut i: usize = 0;
        assert(out@ =~= all_shown(all.take(0)));
        while i < checks.len()
            invariant
                i <= checks@.len(),
                all == text::views(checks@),
                out@ == all_shown(all.take(i as int)),
            decreases checks.len() - i,
        {
            assert(all.take(i + 1).drop_last() =~= all.take(i as int));
            assert(all.take(i + 1).last() == checks@[i as int]@);
            out.append(show(&checks[i]).as_str());
            i = i + 1;
        }
        assert(all.take(i as int) =~= all);
        out
    }
}

/// Every check is shown, and all of it: its verdict, its name, the sentence, and each
/// finding on a line of its own.
pub proof fn law_everything_found_is_shown(checks: Seq<CheckView>, i: int, k: int)
    requires
        0 <= i < checks.len(),
    ensures
        text::contains_text(
            all_shown(checks),
            (match checks[i].status {
                Status::Fail => "FAIL"@,
                Status::Pass => "ok  "@,
                Status::Warn => "warn"@,
            }) + "  "@ + checks[i].name + ": "@ + checks[i].detail + "\n"@,
        ),
        0 <= k < checks[i].items.len() ==> text::contains_text(
            all_shown(checks),
            "    "@ + checks[i].items[k] + "\n"@,
        ),
{
    let check = checks[i];
    let part = shown(check);
    let head = label_of(check.status) + "  "@ + check.name + ": "@ + check.detail + "\n"@;
    lemma_all_shown(checks, i);
    assert(part.subrange(0int, 0int + head.len()) =~= head);
    lemma_contained(all_shown(checks), part, head);
    if 0 <= k < check.items.len() {
        let line = "    "@ + check.items[k] + "\n"@;
        let below = findings(check.items);
        lemma_findings(check.items, k);
        assert(part.subrange(head.len() as int, head.len() as int + below.len()) =~= below);
        lemma_contained(part, below, line);
        lemma_contained(all_shown(checks), part, line);
    }
}

proof fn lemma_contained(whole: Seq<char>, part: Seq<char>, needle: Seq<char>)
    requires
        text::contains_text(whole, part),
        text::contains_text(part, needle),
    ensures
        text::contains_text(whole, needle),
{
    let a = choose|a: int|
        0 <= a <= whole.len() - part.len() && #[trigger] whole.subrange(a, a + part.len()) == part;
    let b = choose|b: int|
        0 <= b <= part.len() - needle.len() && #[trigger] part.subrange(b, b + needle.len())
            == needle;
    let at = a + b;
    assert(whole.subrange(at, at + needle.len()) =~= needle) by {
        assert forall|j: int| 0 <= j < needle.len() implies whole[at + j] == needle[j] by {
            assert(part.subrange(b, b + needle.len())[j] == part[b + j]);
            assert(whole.subrange(a, a + part.len())[b + j] == whole[a + b + j]);
        }
    }
}

proof fn lemma_findings(items: Seq<Seq<char>>, k: int)
    requires
        0 <= k < items.len(),
    ensures
        text::contains_text(findings(items), "    "@ + items[k] + "\n"@),
    decreases items.len(),
{
    let rest = items.drop_last();
    let before = findings(rest);
    let whole = findings(items);
    let line = "    "@ + items[k] + "\n"@;
    if k < rest.len() {
        lemma_findings(rest, k);
        assert(rest[k] == items[k]);
        assert(whole.subrange(0int, 0int + before.len()) =~= before);
        lemma_contained(whole, before, line);
    } else {
        let at = before.len() as int;
        assert(whole.subrange(at, at + line.len()) =~= line);
    }
}

proof fn lemma_all_shown(checks: Seq<CheckView>, i: int)
    requires
        0 <= i < checks.len(),
    ensures
        text::contains_text(all_shown(checks), shown(checks[i])),
    decreases checks.len(),
{
    let rest = checks.drop_last();
    let before = all_shown(rest);
    let whole = all_shown(checks);
    let part = shown(checks[i]);
    if i < rest.len() {
        lemma_all_shown(rest, i);
        assert(rest[i] == checks[i]);
        assert(whole.subrange(0int, 0int + before.len()) =~= before);
        lemma_contained(whole, before, part);
    } else {
        let at = before.len() as int;
        assert(whole.subrange(at, at + part.len()) =~= part);
    }
}

} // verus!

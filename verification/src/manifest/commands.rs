//! The commands the guest may ask the host to run, keyed by name.
use crate::text;
use vstd::prelude::*;

verus! {

/// `argv` lives only on the host; the guest sends the key, never a command line.
#[derive(Debug, PartialEq, Eq)]
pub struct HostCommand {
    /// Off by default, so a command is exact unless deliberately widened.
    pub arguments: bool,
    pub argv: Vec<String>,
    /// Guest arguments refused even when `arguments` is on: flags that point the
    /// command at other code or configuration, which only the project knows for
    /// its toolchain. `--config` also refuses `--config=x`; a single-letter `-Z`
    /// also refuses the joined `-Zx`.
    pub deny: Vec<String>,
    /// Run under a pty, so colour, progress and prompts work. A terminal is one
    /// device, so this merges stdout and stderr; hence off by default, keeping
    /// them separate for anything read by a machine.
    pub tty: bool,
}

/// A `HostCommand`, its texts as sequences of characters.
#[verifier::ext_equal]
pub struct HostCommandView {
    pub arguments: bool,
    pub argv: Seq<Seq<char>>,
    pub deny: Seq<Seq<char>>,
    pub tty: bool,
}

impl View for HostCommand {
    type V = HostCommandView;

    open spec fn view(&self) -> HostCommandView {
        HostCommandView {
            arguments: self.arguments,
            argv: text::views(self.argv@),
            deny: text::views(self.deny@),
            tty: self.tty,
        }
    }
}

impl Clone for HostCommand {
    fn clone(&self) -> (r: Self)
        ensures
            r@ == self@,
    {
        let argv = self.argv.clone();
        let deny = self.deny.clone();
        assert(argv@ =~= self.argv@);
        assert(deny@ =~= self.deny@);
        HostCommand { arguments: self.arguments, argv, deny, tty: self.tty }
    }
}

/// Whether names are in order, with no two the same.
pub open spec fn is_ordered<V>(entries: Seq<(Seq<char>, V)>) -> bool {
    forall|i: int, j: int|
        0 <= i < j < entries.len() ==> text::less(
            (#[trigger] entries[i]).0,
            (#[trigger] entries[j]).0,
        )
}

/// Whether some entry has that name.
pub open spec fn has_name<V>(entries: Seq<(Seq<char>, V)>, name: Seq<char>) -> bool {
    exists|i: int| 0 <= i < entries.len() && (#[trigger] entries[i]).0 == name
}

/// An index under which entries have that name.
pub open spec fn position<V>(entries: Seq<(Seq<char>, V)>, name: Seq<char>) -> int {
    choose|i: int| 0 <= i < entries.len() && (#[trigger] entries[i]).0 == name
}

/// What entries hold under a name, or nothing.
pub open spec fn lookup<V>(entries: Seq<(Seq<char>, V)>, name: Seq<char>) -> Option<V> {
    if has_name(entries, name) {
        Some(entries[position(entries, name)].1)
    } else {
        None
    }
}

/// Where names are in order, whatever stands under a name is what is found
/// there.
pub proof fn lemma_lookup<V>(entries: Seq<(Seq<char>, V)>, i: int)
    requires
        is_ordered(entries),
        0 <= i < entries.len(),
    ensures
        lookup(entries, entries[i].0) == Some(entries[i].1),
{
    let name = entries[i].0;
    assert(has_name(entries, name));
    let k = position(entries, name);
    if k != i {
        text::lemma_less_asymmetric(name, name);
        assert(text::less(entries[k].0, entries[i].0) || text::less(entries[i].0, entries[k].0));
    }
}

/// What entries without their last hold under a name.
proof fn lemma_lookup_shorter<V>(entries: Seq<(Seq<char>, V)>, name: Seq<char>)
    requires
        is_ordered(entries),
        entries.len() > 0,
    ensures
        is_ordered(entries.drop_last()),
        lookup(entries.drop_last(), name) == (if name == entries.last().0 {
            None
        } else {
            lookup(entries, name)
        }),
{
    let rest = entries.drop_last();
    if has_name(rest, name) {
        let i = position(rest, name);
        assert(entries[i] == rest[i]);
        text::lemma_less_asymmetric(name, name);
        assert(text::less(entries[i].0, entries[entries.len() - 1].0));
        lemma_lookup(rest, i);
        lemma_lookup(entries, i);
    } else if name != entries.last().0 && has_name(entries, name) {
        let i = position(entries, name);
        assert(rest[i].0 == name);
    }
}

/// Entries whose names are in order are determined by what they hold under each
/// name.
pub proof fn lemma_determined<V>(a: Seq<(Seq<char>, V)>, b: Seq<(Seq<char>, V)>)
    requires
        is_ordered(a),
        is_ordered(b),
        forall|name: Seq<char>| #[trigger] lookup(a, name) == lookup(b, name),
    ensures
        a == b,
    decreases a.len(),
{
    if a.len() == 0 {
        if b.len() > 0 {
            lemma_lookup(b, 0);
            assert(lookup(a, b[0].0) is None);
        }
        assert(a =~= b);
    } else if b.len() == 0 {
        lemma_lookup(a, 0);
        assert(lookup(a, a[0].0) == lookup(b, a[0].0));
    } else {
        let x = a.last();
        let y = b.last();
        lemma_lookup(a, a.len() - 1);
        lemma_lookup(b, b.len() - 1);
        assert(lookup(a, x.0) == lookup(b, x.0));
        assert(lookup(a, y.0) == lookup(b, y.0));
        if x.0 != y.0 {
            let i = position(a, y.0);
            let j = position(b, x.0);
            assert(text::less(a[i].0, a[a.len() - 1].0));
            assert(text::less(b[j].0, b[b.len() - 1].0));
            text::lemma_less_asymmetric(x.0, y.0);
        }
        assert forall|name: Seq<char>| #[trigger]
            lookup(a.drop_last(), name) == lookup(b.drop_last(), name) by {
            lemma_lookup_shorter(a, name);
            lemma_lookup_shorter(b, name);
            assert(lookup(a, name) == lookup(b, name));
        }
        lemma_lookup_shorter(a, x.0);
        lemma_lookup_shorter(b, y.0);
        lemma_determined(a.drop_last(), b.drop_last());
        assert(a =~= a.drop_last().push(x));
        assert(b =~= b.drop_last().push(y));
    }
}

/// Host commands by name. In order of their names, so that rendering them is
/// deterministic.
#[derive(Debug, PartialEq, Eq)]
pub struct Commands {
    entries: Vec<(String, HostCommand)>,
}

impl View for Commands {
    type V = Seq<(Seq<char>, HostCommandView)>;

    closed spec fn view(&self) -> Seq<(Seq<char>, HostCommandView)> {
        text::views(self.entries@)
    }
}

impl Commands {
    #[verifier::type_invariant]
    spec fn ordered(self) -> bool {
        is_ordered(text::views(self.entries@))
    }

    pub fn new() -> (r: Self)
        ensures
            r@ == Seq::<(Seq<char>, HostCommandView)>::empty(),
    {
        let entries: Vec<(String, HostCommand)> = Vec::new();
        assert(text::views(entries@) =~= seq![]);
        Commands { entries }
    }

    pub fn len(&self) -> (r: usize)
        ensures
            r == self@.len(),
            is_ordered(self@),
    {
        proof {
            use_type_invariant(self);
        }
        self.entries.len()
    }

    pub fn is_empty(&self) -> (r: bool)
        ensures
            r == (self@.len() == 0),
    {
        self.entries.len() == 0
    }

    /// The name at an index.
    pub fn name_at(&self, i: usize) -> (r: &String)
        requires
            i < self@.len(),
        ensures
            r@ == self@[i as int].0,
    {
        assert(self@[i as int] == self.entries@[i as int]@);
        &self.entries[i].0
    }

    /// The command at an index.
    pub fn command_at(&self, i: usize) -> (r: &HostCommand)
        requires
            i < self@.len(),
        ensures
            r@ == self@[i as int].1,
    {
        assert(self@[i as int] == self.entries@[i as int]@);
        &self.entries[i].1
    }

    /// Every name, in order.
    pub fn names(&self) -> (r: Vec<String>)
        ensures
            text::views(r@) == self@.map_values(|entry: (Seq<char>, HostCommandView)| entry.0),
            is_ordered(self@),
    {
        proof {
            use_type_invariant(self);
        }
        let mut out: Vec<String> = Vec::new();
        let mut i: usize = 0;
        while i < self.entries.len()
            invariant
                i <= self.entries@.len(),
                out@.len() == i,
                forall|j: int| 0 <= j < i ==> (#[trigger] out@[j])@ == self.entries@[j].0@,
            decreases self.entries.len() - i,
        {
            out.push(self.entries[i].0.clone());
            i = i + 1;
        }
        assert(text::views(out@) =~= self@.map_values(
            |entry: (Seq<char>, HostCommandView)| entry.0,
        ));
        out
    }

    /// The command of that name.
    pub fn get(&self, name: &str) -> (r: Option<&HostCommand>)
        ensures
            match r {
                Some(command) => lookup(self@, name@) == Some(command@),
                None => lookup(self@, name@) is None,
            },
    {
        proof {
            use_type_invariant(self);
        }
        let mut i: usize = 0;
        while i < self.entries.len()
            invariant
                i <= self.entries@.len(),
                is_ordered(self@),
                forall|j: int| 0 <= j < i ==> (#[trigger] self.entries@[j]).0@ != name@,
            decreases self.entries.len() - i,
        {
            if text::same(self.entries[i].0.as_str(), name) {
                assert(self@[i as int] == self.entries@[i as int]@);
                proof {
                    lemma_lookup(self@, i as int);
                }
                return Some(&self.entries[i].1);
            }
            i = i + 1;
        }
        assert forall|j: int| 0 <= j < self@.len() implies (#[trigger] self@[j]).0 != name@ by {
            assert(self@[j] == self.entries@[j]@);
        }
        None
    }

    /// Whether there is a command of that name.
    pub fn contains_key(&self, name: &str) -> (r: bool)
        ensures
            r == has_name(self@, name@),
    {
        match self.get(name) {
            Some(_) => true,
            None => false,
        }
    }

    /// Puts a command under a name, in place of what was there.
    pub fn insert(&mut self, name: String, command: HostCommand)
        ensures
            is_ordered(final(self)@),
            forall|n: Seq<char>| #[trigger]
                lookup(final(self)@, n) == (if n == name@ {
                    Some(command@)
                } else {
                    lookup(old(self)@, n)
                }),
    {
        proof {
            use_type_invariant(&*self);
        }
        let ghost before = self@;
        let mut k: usize = 0;
        while k < self.entries.len() && text::before(
            self.entries[k].0.as_str(),
            name.as_str(),
        )
            invariant
                k <= self.entries@.len(),
                self.entries@ == old(self).entries@,
                forall|j: int|
                    0 <= j < k ==> text::less((#[trigger] self.entries@[j]).0@, name@),
            decreases self.entries.len() - k,
        {
            k = k + 1;
        }
        let replaces = k < self.entries.len() && text::same(
            self.entries[k].0.as_str(),
            name.as_str(),
        );
        let mut entries = copy_entries(&self.entries);
        let ghost item = (name@, command@);
        let ghost copied = entries@;
        if replaces {
            entries.remove(k);
            assert(text::views(entries@) =~= before.remove(k as int)) by {
                assert forall|j: int| 0 <= j < entries@.len() implies text::views(entries@)[j]
                    == before.remove(k as int)[j] by {
                    let from = if j < k {
                        j
                    } else {
                        j + 1
                    };
                    assert(entries@[j] == copied[from]);
                    assert(text::views(copied)[from] == before[from]);
                }
            }
        }
        let ghost shorter = entries@;
        entries.insert(k, (name, command));
        proof {
            let after = text::views(entries@);
            assert(after =~= text::views(shorter).insert(k as int, item)) by {
                assert forall|j: int| 0 <= j < after.len() implies after[j] == text::views(
                    shorter,
                ).insert(k as int, item)[j] by {
                    assert(after[j] == entries@[j]@);
                    if j < k {
                        assert(entries@[j] == shorter[j]);
                    } else if j > k {
                        assert(entries@[j] == shorter[j - 1]);
                    }
                }
            }
            assert forall|j: int| 0 <= j < before.len() implies #[trigger] before[j]
                == old(self).entries@[j]@ by {}
            lemma_insert(before, after, item, k as int, replaces);
        }
        self.entries = entries;
    }
}

fn copy_entries(entries: &Vec<(String, HostCommand)>) -> (r: Vec<(String, HostCommand)>)
    ensures
        text::views(r@) == text::views(entries@),
{
    let mut out: Vec<(String, HostCommand)> = Vec::new();
    let mut i: usize = 0;
    while i < entries.len()
        invariant
            i <= entries@.len(),
            out@.len() == i,
            forall|j: int| 0 <= j < i ==> (#[trigger] out@[j])@ == entries@[j]@,
        decreases entries.len() - i,
    {
        out.push((entries[i].0.clone(), entries[i].1.clone()));
        i = i + 1;
    }
    assert(text::views(out@) =~= text::views(entries@));
    out
}

proof fn lemma_insert<V>(
    before: Seq<(Seq<char>, V)>,
    after: Seq<(Seq<char>, V)>,
    item: (Seq<char>, V),
    k: int,
    replaces: bool,
)
    requires
        is_ordered(before),
        0 <= k <= before.len(),
        forall|j: int| 0 <= j < k ==> text::less((#[trigger] before[j]).0, item.0),
        k < before.len() ==> !text::less(before[k].0, item.0),
        replaces == (k < before.len() && before[k].0 == item.0),
        after == (if replaces {
            before.remove(k).insert(k, item)
        } else {
            before.insert(k, item)
        }),
    ensures
        is_ordered(after),
        forall|n: Seq<char>| #[trigger]
            lookup(after, n) == (if n == item.0 {
                Some(item.1)
            } else {
                lookup(before, n)
            }),
{
    let shift: int = if replaces {
        0
    } else {
        1
    };
    assert forall|j: int| 0 <= j < after.len() implies #[trigger] after[j] == (if j < k {
        before[j]
    } else if j == k {
        item
    } else {
        before[j - shift]
    }) by {}
    if k < before.len() {
        text::lemma_less_total(before[k].0, item.0);
    }
    assert forall|i: int, j: int| 0 <= i < j < after.len() implies text::less(
        (#[trigger] after[i]).0,
        (#[trigger] after[j]).0,
    ) by {
        if i == k && j > k {
            if j - shift > k {
                assert(text::less(before[k].0, before[j - shift].0));
                if !replaces {
                    text::lemma_less_transitive(item.0, before[k].0, before[j - shift].0);
                }
            }
        }
    }
    assert forall|n: Seq<char>| #[trigger]
        lookup(after, n) == (if n == item.0 {
            Some(item.1)
        } else {
            lookup(before, n)
        }) by {
        if n == item.0 {
            lemma_lookup(after, k);
        } else if has_name(before, n) {
            let i = position(before, n);
            lemma_lookup(before, i);
            if i < k {
                assert(after[i] == before[i]);
                lemma_lookup(after, i);
            } else {
                assert(after[i + shift] == before[i]);
                lemma_lookup(after, i + shift);
            }
        } else {
            if has_name(after, n) {
                let i = position(after, n);
                if i < k {
                    assert(before[i].0 == n);
                } else {
                    assert(before[i - shift].0 == n);
                }
            }
        }
    }
}

impl Clone for Commands {
    fn clone(&self) -> (r: Self)
        ensures
            r@ == self@,
            is_ordered(r@),
    {
        proof {
            use_type_invariant(self);
        }
        Commands { entries: copy_entries(&self.entries) }
    }
}

} // verus!

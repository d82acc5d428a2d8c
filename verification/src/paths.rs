//! Unix paths as text, compared and taken apart by component, and the
//! resolution of the paths a manifest names.
use crate::text;
use vstd::prelude::*;

verus! {

// ---------------------------------------------------------------------------
// What a path's text means
// ---------------------------------------------------------------------------

/// Whether a path begins at the root.
pub open spec fn is_rooted(path: Seq<char>) -> bool {
    path.len() > 0 && path[0] == '/'
}

/// Whether a piece between separators names something: the empty piece and
/// `.` stand for the directory already reached.
pub open spec fn is_name(piece: Seq<char>) -> bool {
    piece.len() > 0 && piece != seq!['.']
}

/// The pieces that name something, in order.
pub open spec fn named(pieces: Seq<Seq<char>>) -> Seq<Seq<char>>
    decreases pieces.len(),
{
    if pieces.len() == 0 {
        seq![]
    } else {
        let rest = named(pieces.drop_last());
        if is_name(pieces.last()) {
            rest.push(pieces.last())
        } else {
            rest
        }
    }
}

/// The components of a path, each as text. The first is the root (`/`), or a
/// relative path's first piece even where that is `.`; after it only pieces
/// that name something count. The empty path has none.
pub open spec fn components(path: Seq<char>) -> Seq<Seq<char>> {
    if path.len() == 0 {
        seq![]
    } else {
        let pieces = text::split(path, '/');
        let first = if is_rooted(path) {
            seq!['/']
        } else {
            pieces[0]
        };
        seq![first] + named(pieces.skip(1))
    }
}

/// Whether two paths name the same place in the same way: whether their
/// components agree.
pub open spec fn same_place(a: Seq<char>, b: Seq<char>) -> bool {
    components(a) == components(b)
}

/// Whether `path` is `base` or lies below it.
pub open spec fn within(path: Seq<char>, base: Seq<char>) -> bool {
    components(base).is_prefix_of(components(path))
}

/// `path` below `base`, or `path` itself where it begins at the root.
pub open spec fn joined(base: Seq<char>, path: Seq<char>) -> Seq<char> {
    if is_rooted(path) || base.len() == 0 {
        path
    } else if base.last() == '/' {
        base + path
    } else {
        base.push('/') + path
    }
}

/// The last component, where it names something other than a parent.
pub open spec fn file_name(path: Seq<char>) -> Option<Seq<char>> {
    let parts = components(path);
    if parts.len() > 0 && parts.last() != seq!['/'] && parts.last() != seq!['.'] && parts.last()
        != seq!['.', '.'] {
        Some(parts.last())
    } else {
        None
    }
}

/// What is left of pieces once `n` of those that name something are gone from
/// the front.
pub open spec fn after_names(pieces: Seq<Seq<char>>, n: nat) -> Seq<Seq<char>>
    decreases pieces.len(),
{
    if n == 0 || pieces.len() == 0 {
        pieces
    } else if is_name(pieces[0]) {
        after_names(pieces.skip(1), (n - 1) as nat)
    } else {
        after_names(pieces.skip(1), n)
    }
}

/// The pieces without those at the front that name nothing.
pub open spec fn trim_front(pieces: Seq<Seq<char>>) -> Seq<Seq<char>>
    decreases pieces.len(),
{
    if pieces.len() > 0 && !is_name(pieces[0]) {
        trim_front(pieces.skip(1))
    } else {
        pieces
    }
}

/// The pieces without those at the end that name nothing.
pub open spec fn trim_back(pieces: Seq<Seq<char>>) -> Seq<Seq<char>>
    decreases pieces.len(),
{
    if pieces.len() > 0 && !is_name(pieces.last()) {
        trim_back(pieces.drop_last())
    } else {
        pieces
    }
}

/// What is left of a path once its first `n` components are gone, written as
/// it was written in the path.
pub open spec fn remainder(path: Seq<char>, n: nat) -> Seq<char> {
    let pieces = text::split(path, '/');
    let tail = pieces.skip(1);
    if path.len() == 0 {
        path
    } else if n > 0 {
        text::join(trim_back(trim_front(after_names(tail, (n - 1) as nat))), seq!['/'])
    } else if is_rooted(path) && trim_back(tail).len() == 0 {
        seq!['/']
    } else {
        text::join(seq![pieces[0]] + trim_back(tail), seq!['/'])
    }
}

/// The index of the last `.` in a name, or nothing where it has none.
pub open spec fn last_dot(name: Seq<char>) -> Option<int>
    decreases name.len(),
{
    if name.len() == 0 {
        None
    } else if name.last() == '.' {
        Some(name.len() - 1)
    } else {
        last_dot(name.drop_last())
    }
}

/// A file name without its extension: without its last `.` and what follows,
/// unless that `.` is its first character.
pub open spec fn stem(name: Seq<char>) -> Seq<char> {
    match last_dot(name) {
        Some(dot) => if dot > 0 {
            name.take(dot)
        } else {
            name
        },
        None => name,
    }
}

/// A path with the extension of its file name replaced, or left alone where
/// it has no file name.
pub open spec fn with_extension(path: Seq<char>, extension: Seq<char>) -> Seq<char> {
    match file_name(path) {
        Some(name) => {
            let whole = remainder(path, 0);
            let kept = whole.take(whole.len() - name.len() + stem(name).len());
            if extension.len() == 0 {
                kept
            } else {
                kept.push('.') + extension
            }
        },
        None => path,
    }
}

/// Where a component stands in the order of components: the root first, then
/// `.`, then `..`, then names.
pub open spec fn component_rank(part: Seq<char>) -> nat {
    if part == seq!['/'] {
        0
    } else if part == seq!['.'] {
        1
    } else if part == seq!['.', '.'] {
        2
    } else {
        3
    }
}

/// Whether one component comes before another.
pub open spec fn component_less(a: Seq<char>, b: Seq<char>) -> bool {
    component_rank(a) < component_rank(b) || (component_rank(a) == 3 && component_rank(b) == 3
        && text::less(a, b))
}

/// Whether one list of components comes before another: by the first that
/// differs, a list before whatever extends it.
pub open spec fn components_less(a: Seq<Seq<char>>, b: Seq<Seq<char>>) -> bool
    decreases a.len(),
{
    b.len() > 0 && (a.len() == 0 || component_less(a[0], b[0]) || (a[0] == b[0] && components_less(
        a.skip(1),
        b.skip(1),
    )))
}

// ---------------------------------------------------------------------------
// Lemmas
// ---------------------------------------------------------------------------

pub proof fn lemma_named_concat(a: Seq<Seq<char>>, b: Seq<Seq<char>>)
    ensures
        named(a + b) == named(a) + named(b),
    decreases b.len(),
{
    if b.len() == 0 {
        assert(a + b =~= a);
        assert(named(a) + named(b) =~= named(a));
    } else {
        lemma_named_concat(a, b.drop_last());
        assert((a + b).drop_last() =~= a + b.drop_last());
        assert((a + b).last() == b.last());
        assert(named(a + b) =~= named(a) + named(b));
    }
}

proof fn lemma_named_front(pieces: Seq<Seq<char>>)
    requires
        pieces.len() > 0,
    ensures
        named(pieces) == (if is_name(pieces[0]) {
            seq![pieces[0]] + named(pieces.skip(1))
        } else {
            named(pieces.skip(1))
        }),
{
    reveal_with_fuel(named, 2);
    let first = seq![pieces[0]];
    assert(pieces =~= first + pieces.skip(1));
    lemma_named_concat(first, pieces.skip(1));
    assert(first.drop_last() =~= Seq::<Seq<char>>::empty());
    if is_name(pieces[0]) {
        assert(named(first) =~= first);
    } else {
        assert(named(first) =~= Seq::<Seq<char>>::empty());
        assert(named(first) + named(pieces.skip(1)) =~= named(pieces.skip(1)));
    }
}

proof fn lemma_after_names(pieces: Seq<Seq<char>>, n: nat)
    requires
        n <= named(pieces).len(),
    ensures
        named(after_names(pieces, n)) == named(pieces).skip(n as int),
        forall|i: int|
            0 <= i < after_names(pieces, n).len() ==> pieces.contains(
                #[trigger] after_names(pieces, n)[i],
            ),
    decreases pieces.len(),
{
    if n == 0 || pieces.len() == 0 {
        assert(named(pieces).skip(n as int) =~= named(pieces));
    } else {
        lemma_named_front(pieces);
        let rest = pieces.skip(1);
        if is_name(pieces[0]) {
            lemma_after_names(rest, (n - 1) as nat);
            assert(named(pieces).skip(n as int) =~= named(rest).skip(n - 1));
        } else {
            lemma_after_names(rest, n);
        }
        let left = after_names(pieces, n);
        assert forall|i: int| 0 <= i < left.len() implies pieces.contains(#[trigger] left[i]) by {
            assert(rest.contains(left[i]));
            let j = choose|j: int| 0 <= j < rest.len() && rest[j] == left[i];
            assert(pieces[j + 1] == left[i]);
        }
    }
}

proof fn lemma_trim_front(pieces: Seq<Seq<char>>)
    ensures
        named(trim_front(pieces)) == named(pieces),
        trim_front(pieces).len() > 0 ==> is_name(trim_front(pieces)[0]),
        forall|i: int|
            0 <= i < trim_front(pieces).len() ==> pieces.contains(#[trigger] trim_front(pieces)[i]),
    decreases pieces.len(),
{
    if pieces.len() > 0 && !is_name(pieces[0]) {
        lemma_named_front(pieces);
        let rest = pieces.skip(1);
        lemma_trim_front(rest);
        let left = trim_front(pieces);
        assert forall|i: int| 0 <= i < left.len() implies pieces.contains(#[trigger] left[i]) by {
            let j = choose|j: int| 0 <= j < rest.len() && rest[j] == left[i];
            assert(pieces[j + 1] == left[i]);
        }
    }
}

proof fn lemma_trim_back(pieces: Seq<Seq<char>>)
    ensures
        named(trim_back(pieces)) == named(pieces),
        trim_back(pieces).len() <= pieces.len(),
        trim_back(pieces) == pieces.take(trim_back(pieces).len() as int),
        pieces.len() > 0 && is_name(pieces[0]) ==> trim_back(pieces).len() > 0,
    decreases pieces.len(),
{
    if pieces.len() > 0 && !is_name(pieces.last()) {
        lemma_trim_back(pieces.drop_last());
        assert(pieces.drop_last().take(trim_back(pieces).len() as int) =~= pieces.take(
            trim_back(pieces).len() as int,
        ));
    } else {
        assert(pieces.take(pieces.len() as int) =~= pieces);
    }
}

/// A path that is not empty has at least one component.
pub proof fn lemma_components_nonempty(path: Seq<char>)
    ensures
        (components(path).len() == 0) == (path.len() == 0),
        is_rooted(path) ==> components(path)[0] == seq!['/'],
{
}

/// The first piece of a relative path is not empty, and holds no separator.
proof fn lemma_first_piece(path: Seq<char>)
    requires
        path.len() > 0,
    ensures
        text::split(path, '/').len() >= 1,
        is_rooted(path) == (text::split(path, '/')[0].len() == 0),
        is_rooted(path) ==> text::split(path, '/').len() >= 2,
    decreases path.len(),
{
    text::lemma_split_len(path, '/');
    let rest = text::split(path.drop_last(), '/');
    text::lemma_split_len(path.drop_last(), '/');
    if path.len() == 1 {
        assert(path.drop_last() =~= Seq::empty());
    } else {
        lemma_first_piece(path.drop_last());
    }
}

/// Joining a relative path onto a base puts its components after the base's;
/// a leading `.` of the relative path adds nothing.
pub proof fn lemma_joined(base: Seq<char>, path: Seq<char>)
    requires
        !is_rooted(path),
        base.len() > 0,
    ensures
        components(joined(base, path)) == components(base) + named(text::split(path, '/')),
        path.len() > 0 && components(path)[0] != seq!['.'] ==> components(joined(base, path))
            == components(base) + components(path),
        path.len() == 0 ==> components(joined(base, path)) == components(base),
{
    let whole = joined(base, path);
    let stem = if base.last() == '/' {
        base.drop_last()
    } else {
        base
    };
    let pieces = text::split(path, '/');
    assert(whole =~= stem + seq!['/'] + path);
    text::lemma_split_concat(stem, '/', path);
    text::lemma_split_len(stem, '/');
    text::lemma_split_len(path, '/');
    lemma_first_piece(base);
    lemma_first_piece(whole);
    if base.last() == '/' {
        text::lemma_split_concat(stem, '/', Seq::empty());
        assert(base =~= stem + seq!['/'] + Seq::empty());
        assert(text::split(base, '/').skip(1) =~= text::split(stem, '/').skip(1).push(
            Seq::empty(),
        ));
        let shorter = text::split(base, '/').skip(1);
        assert(shorter.drop_last() =~= text::split(stem, '/').skip(1));
        assert(named(shorter) == named(text::split(stem, '/').skip(1)));
        assert(text::split(base, '/')[0] == text::split(stem, '/')[0]);
    }
    assert(whole[0] == base[0]);
    assert(text::split(whole, '/').skip(1) =~= text::split(stem, '/').skip(1) + pieces);
    lemma_named_concat(text::split(stem, '/').skip(1), pieces);
    assert(text::split(whole, '/')[0] == text::split(stem, '/')[0]);
    assert(components(whole) =~= components(base) + named(pieces));
    if path.len() > 0 {
        lemma_first_piece(path);
        lemma_named_front(pieces);
    } else {
        reveal_with_fuel(named, 2);
        assert(pieces.drop_last() =~= Seq::<Seq<char>>::empty());
        assert(named(pieces) =~= Seq::<Seq<char>>::empty());
    }
}

/// What is left of a path once `n` components are gone has exactly the other
/// components, and does not begin with `.`.
pub proof fn lemma_remainder(path: Seq<char>, n: nat)
    requires
        0 < n <= components(path).len(),
    ensures
        components(remainder(path, n)) == components(path).skip(n as int),
        !is_rooted(remainder(path, n)),
        remainder(path, n).len() > 0 ==> components(remainder(path, n))[0] != seq!['.'],
{
    let pieces = text::split(path, '/');
    text::lemma_split_len(path, '/');
    text::lemma_split_pieces(path, '/');
    let tail = pieces.skip(1);
    let left = after_names(tail, (n - 1) as nat);
    let front = trim_front(left);
    let kept = trim_back(front);
    lemma_after_names(tail, (n - 1) as nat);
    lemma_trim_front(left);
    lemma_trim_back(front);
    let rest = remainder(path, n);
    assert(components(path).skip(n as int) =~= named(tail).skip(n - 1));
    assert(named(kept) == components(path).skip(n as int));
    assert forall|i: int| 0 <= i < kept.len() implies !(#[trigger] kept[i]).contains('/') by {
        assert(kept[i] == front[i]);
        assert(left.contains(front[i]));
        let j = choose|j: int| 0 <= j < left.len() && left[j] == front[i];
        assert(tail.contains(left[j]));
        let k = choose|k: int| 0 <= k < tail.len() && tail[k] == left[j];
        assert(pieces[k + 1] == kept[i]);
    }
    if kept.len() == 0 {
        assert(rest =~= Seq::empty());
        assert(components(rest) =~= named(kept));
    } else {
        text::lemma_split_join(kept, '/');
        assert(kept[0] == front[0]);
        lemma_named_front(kept);
        if rest.len() == 0 {
            assert(text::split(rest, '/') =~= seq![Seq::<char>::empty()]);
            assert(kept[0] =~= Seq::<char>::empty());
        }
        lemma_first_piece(rest);
        assert(components(rest) =~= named(kept));
    }
}

/// A path of which nothing is gone is the same place, and begins at the root
/// where the path does.
pub proof fn lemma_whole(path: Seq<char>)
    ensures
        components(remainder(path, 0)) == components(path),
        is_rooted(remainder(path, 0)) == is_rooted(path),
{
    if path.len() > 0 {
        let pieces = text::split(path, '/');
        text::lemma_split_len(path, '/');
        text::lemma_split_pieces(path, '/');
        lemma_first_piece(path);
        let tail = pieces.skip(1);
        lemma_trim_back(tail);
        let back = trim_back(tail);
        let kept = seq![pieces[0]] + back;
        let rest = remainder(path, 0);
        assert forall|i: int| 0 <= i < kept.len() implies !(#[trigger] kept[i]).contains('/') by {
            assert(kept[i] == pieces[i]);
        }
        if is_rooted(path) && back.len() == 0 {
            let root = seq![Seq::<char>::empty(), Seq::<char>::empty()];
            assert(text::join(root.drop_last(), seq!['/']) =~= Seq::empty());
            assert(text::join(root, seq!['/']) =~= rest);
            text::lemma_split_join(root, '/');
            assert(root.skip(1) =~= seq![Seq::<char>::empty()]);
            reveal_with_fuel(named, 2);
            assert(named(root.skip(1)) =~= Seq::empty());
            assert(components(rest) =~= components(path));
        } else {
            text::lemma_split_join(kept, '/');
            assert(kept.skip(1) =~= back);
            if rest.len() == 0 {
                assert(text::split(rest, '/') =~= seq![Seq::<char>::empty()]);
                assert(kept.len() == 1 && kept[0].len() == 0);
            }
            lemma_first_piece(rest);
            assert(components(rest) =~= components(path));
        }
    }
}

/// Whatever lies within a path that itself lies within a base lies within the
/// base too, and every path lies within itself.
pub proof fn lemma_within(path: Seq<char>, middle: Seq<char>, base: Seq<char>)
    ensures
        within(path, path),
        within(path, middle) && within(middle, base) ==> within(path, base),
        within(path, middle) && within(middle, path) ==> same_place(path, middle),
{
    if within(path, middle) && within(middle, base) {
        assert(components(base) =~= components(path).subrange(0, components(base).len() as int));
    }
    if within(path, middle) && within(middle, path) {
        assert(components(path) =~= components(middle));
    }
}

/// A relative path joined onto a base lies within the base.
pub proof fn lemma_joined_within(base: Seq<char>, path: Seq<char>)
    requires
        !is_rooted(path),
    ensures
        within(joined(base, path), base),
{
    if base.len() > 0 {
        lemma_joined(base, path);
        assert(components(base) =~= components(joined(base, path)).subrange(
            0,
            components(base).len() as int,
        ));
    } else {
        assert(components(base) =~= components(joined(base, path)).subrange(0, 0));
    }
}

/// Two components are in order one way, or the other, or are the same.
proof fn lemma_component_less_total(a: Seq<char>, b: Seq<char>)
    ensures
        component_less(a, b) || component_less(b, a) || a == b,
        !(component_less(a, b) && component_less(b, a)),
        !component_less(a, a),
{
    text::lemma_less_total(a, b);
    text::lemma_less_asymmetric(a, b);
}

/// Two lists of components are in order one way, or the other, or are the
/// same.
pub proof fn lemma_components_less_total(a: Seq<Seq<char>>, b: Seq<Seq<char>>)
    ensures
        components_less(a, b) || components_less(b, a) || a == b,
        !(components_less(a, b) && components_less(b, a)),
        !components_less(a, a),
    decreases a.len(),
{
    if a.len() > 0 && b.len() > 0 {
        lemma_component_less_total(a[0], b[0]);
        lemma_components_less_total(a.skip(1), b.skip(1));
        if a[0] == b[0] && a.skip(1) == b.skip(1) {
            assert(a =~= seq![a[0]] + a.skip(1));
            assert(b =~= seq![b[0]] + b.skip(1));
        }
    } else if a.len() == 0 && b.len() == 0 {
        assert(a =~= b);
    } else if a.len() > 0 {
        lemma_component_less_total(a[0], a[0]);
        lemma_components_less_total(a.skip(1), a.skip(1));
    }
}

/// The order of components is transitive.
pub proof fn lemma_components_less_transitive(
    a: Seq<Seq<char>>,
    b: Seq<Seq<char>>,
    c: Seq<Seq<char>>,
)
    requires
        components_less(a, b),
        components_less(b, c),
    ensures
        components_less(a, c),
    decreases a.len(),
{
    if a.len() > 0 {
        lemma_component_less_total(a[0], a[0]);
        if a[0] == b[0] && b[0] == c[0] {
            lemma_components_less_transitive(a.skip(1), b.skip(1), c.skip(1));
        } else if component_less(a[0], b[0]) && component_less(b[0], c[0]) {
            if component_rank(a[0]) == 3 && component_rank(c[0]) == 3 {
                text::lemma_less_transitive(a[0], b[0], c[0]);
            }
        }
    }
}

/// A file name is one piece of a path that names something.
pub proof fn lemma_file_name(path: Seq<char>)
    ensures
        file_name(path) matches Some(name) ==> is_name(name) && !name.contains('/'),
{
    if file_name(path) is Some {
        let pieces = text::split(path, '/');
        text::lemma_split_len(path, '/');
        text::lemma_split_pieces(path, '/');
        lemma_first_piece(path);
        let tail = pieces.skip(1);
        lemma_named_members(tail);
        let parts = components(path);
        if parts.len() == 1 {
            assert(parts.last() == pieces[0]);
        } else {
            assert(parts.last() == named(tail).last());
            let j = choose|j: int| 0 <= j < tail.len() && tail[j] == named(tail).last();
            assert(pieces[j + 1] == parts.last());
        }
    }
}

proof fn lemma_last_dot(name: Seq<char>)
    ensures
        match last_dot(name) {
            Some(dot) => 0 <= dot < name.len(),
            None => true,
        },
    decreases name.len(),
{
    if name.len() > 0 {
        lemma_last_dot(name.drop_last());
    }
}

proof fn lemma_trim_back_last(pieces: Seq<Seq<char>>)
    ensures
        (named(pieces).len() == 0) == (trim_back(pieces).len() == 0),
        named(pieces).len() > 0 ==> trim_back(pieces).last() == named(pieces).last(),
    decreases pieces.len(),
{
    if pieces.len() > 0 && !is_name(pieces.last()) {
        lemma_trim_back_last(pieces.drop_last());
    }
}

/// A path's file name ends the path, once what names nothing is gone from its
/// end.
proof fn lemma_file_name_ends(path: Seq<char>)
    ensures
        file_name(path) matches Some(name) ==> name.is_suffix_of(remainder(path, 0)) && stem(
            name,
        ).len() <= name.len(),
{
    if file_name(path) is Some {
        let name = file_name(path)->0;
        lemma_last_dot(name);
        let pieces = text::split(path, '/');
        text::lemma_split_len(path, '/');
        let tail = pieces.skip(1);
        lemma_trim_back_last(tail);
        let whole = remainder(path, 0);
        let parts = seq![pieces[0]] + trim_back(tail);
        if trim_back(tail).len() == 0 {
            assert(components(path).last() == components(path)[0]);
            assert(parts =~= seq![pieces[0]]);
            assert(whole == name);
        } else {
            assert(parts.last() == name);
            assert(whole == text::join(parts.drop_last(), seq!['/']) + seq!['/'] + name);
        }
        assert(name =~= whole.subrange(whole.len() - name.len(), whole.len() as int));
    }
}

/// Whatever is named is one of the pieces, and names something.
proof fn lemma_named_members(pieces: Seq<Seq<char>>)
    ensures
        forall|i: int|
            0 <= i < named(pieces).len() ==> is_name(#[trigger] named(pieces)[i])
                && pieces.contains(named(pieces)[i]),
    decreases pieces.len(),
{
    if pieces.len() > 0 {
        let rest = pieces.drop_last();
        lemma_named_members(rest);
        assert forall|i: int| 0 <= i < named(pieces).len() implies is_name(
            #[trigger] named(pieces)[i],
        ) && pieces.contains(named(pieces)[i]) by {
            if i < named(rest).len() {
                assert(named(pieces)[i] == named(rest)[i]);
                let j = choose|j: int| 0 <= j < rest.len() && rest[j] == named(rest)[i];
                assert(pieces[j] == named(pieces)[i]);
            } else {
                assert(pieces[pieces.len() - 1] == named(pieces)[i]);
            }
        }
    }
}

/// A name joined onto a base is the base's components and the name.
pub proof fn lemma_joined_name(base: Seq<char>, name: Seq<char>)
    requires
        base.len() > 0,
        is_name(name),
        !name.contains('/'),
    ensures
        components(joined(base, name)) == components(base).push(name),
{
    assert(!is_rooted(name)) by {
        if is_rooted(name) {
            assert(name.contains(name[0]));
        }
    }
    lemma_joined(base, name);
    text::lemma_split_plain(name, '/');
    lemma_named_front(seq![name]);
    assert(seq![name].skip(1) =~= Seq::<Seq<char>>::empty());
    assert(named(seq![name]) =~= seq![name]);
    assert(components(base) + seq![name] =~= components(base).push(name));
}

// ---------------------------------------------------------------------------
// Paths
// ---------------------------------------------------------------------------

/// A Unix path, held as the text it was written with. Two paths are equal
/// where their components agree.
#[derive(Debug)]
pub struct PathBuf {
    pub text: String,
}

impl View for PathBuf {
    type V = Seq<char>;

    open spec fn view(&self) -> Seq<char> {
        self.text@
    }
}

impl Clone for PathBuf {
    fn clone(&self) -> (r: Self)
        ensures
            r == *self,
    {
        PathBuf { text: self.text.clone() }
    }
}

impl PartialEq for PathBuf {
    fn eq(&self, other: &Self) -> (r: bool) {
        self.is(other)
    }
}

impl vstd::std_specs::cmp::PartialEqSpecImpl for PathBuf {
    open spec fn obeys_eq_spec() -> bool {
        true
    }

    open spec fn eq_spec(&self, other: &Self) -> bool {
        same_place(self@, other@)
    }
}

impl Eq for PathBuf {

}

impl From<&str> for PathBuf {
    fn from(text: &str) -> (r: Self)
        ensures
            r@ == text@,
    {
        PathBuf { text: text.to_string() }
    }
}

impl vstd::std_specs::convert::FromSpecImpl<&str> for PathBuf {
    open spec fn obeys_from_spec() -> bool {
        false
    }

    open spec fn from_spec(text: &str) -> Self {
        arbitrary()
    }
}

impl From<String> for PathBuf {
    fn from(text: String) -> (r: Self)
        ensures
            r@ == text@,
    {
        PathBuf { text }
    }
}

impl vstd::std_specs::convert::FromSpecImpl<String> for PathBuf {
    open spec fn obeys_from_spec() -> bool {
        true
    }

    open spec fn from_spec(text: String) -> Self {
        PathBuf { text }
    }
}

/// Whether two lists hold the same texts in the same order.
pub fn same_texts(a: &Vec<String>, b: &Vec<String>) -> (r: bool)
    ensures
        r == (text::views(a@) == text::views(b@)),
{
    if a.len() != b.len() {
        assert(text::views(a@).len() != text::views(b@).len());
        return false;
    }
    begins_with(a, b)
}

/// Whether a list of texts begins with another.
pub fn begins_with(a: &Vec<String>, b: &Vec<String>) -> (r: bool)
    ensures
        r == text::views(b@).is_prefix_of(text::views(a@)),
        a@.len() == b@.len() ==> r == (text::views(a@) == text::views(b@)),
{
    if b.len() > a.len() {
        return false;
    }
    let mut i: usize = 0;
    while i < b.len()
        invariant
            i <= b@.len() <= a@.len(),
            forall|j: int| 0 <= j < i ==> (#[trigger] a@[j])@ == b@[j]@,
        decreases b.len() - i,
    {
        if !text::same(a[i].as_str(), b[i].as_str()) {
            assert(text::views(a@)[i as int] != text::views(b@)[i as int]);
            assert(text::views(a@).subrange(0, b@.len() as int)[i as int] != text::views(
                b@,
            )[i as int]);
            return false;
        }
        i = i + 1;
    }
    assert(text::views(b@) =~= text::views(a@).subrange(0, b@.len() as int));
    proof {
        if a@.len() == b@.len() {
            assert(text::views(a@) =~= text::views(b@));
        }
    }
    true
}

/// Whether a piece between separators names something.
fn names_something(piece: &str) -> (r: bool)
    ensures
        r == is_name(piece@),
{
    proof {
        reveal_strlit(".");
        assert("."@ =~= seq!['.']);
    }
    piece.unicode_len() > 0 && !text::same(piece, ".")
}

/// Where a component stands in the order of components.
fn rank_of(part: &str) -> (r: u8)
    ensures
        r == component_rank(part@),
{
    proof {
        reveal_strlit("/");
        reveal_strlit(".");
        reveal_strlit("..");
        assert("/"@ =~= seq!['/']);
        assert("."@ =~= seq!['.']);
        assert(".."@ =~= seq!['.', '.']);
    }
    if text::same(part, "/") {
        0
    } else if text::same(part, ".") {
        1
    } else if text::same(part, "..") {
        2
    } else {
        3
    }
}

/// Whether one component comes before another.
fn component_before(a: &str, b: &str) -> (r: bool)
    ensures
        r == component_less(a@, b@),
{
    let x: u8 = rank_of(a);
    let y: u8 = rank_of(b);
    x < y || (x == 3 && y == 3 && text::before(a, b))
}

impl PathBuf {
    /// The text of the path.
    pub fn as_str(&self) -> (r: &str)
        ensures
            r@ == self@,
    {
        self.text.as_str()
    }

    /// The path as it is shown.
    pub fn display(&self) -> (r: String)
        ensures
            r@ == self@,
    {
        self.text.clone()
    }

    /// Whether the path begins at the root.
    pub fn is_absolute(&self) -> (r: bool)
        ensures
            r == is_rooted(self@),
    {
        let s = self.text.as_str();
        s.unicode_len() > 0 && s.get_char(0) == '/'
    }

    /// The components of the path, each as text.
    pub fn components(&self) -> (r: Vec<String>)
        ensures
            text::views(r@) == components(self@),
    {
        let mut out: Vec<String> = Vec::new();
        if self.text.as_str().unicode_len() == 0 {
            assert(text::views(out@) =~= components(self@));
            return out;
        }
        let pieces = text::pieces(self.text.as_str(), '/');
        let ghost whole = text::split(self@, '/');
        proof {
            text::lemma_split_len(self@, '/');
            assert(text::views(pieces@).len() == pieces@.len());
            reveal_strlit("/");
            assert("/"@ =~= seq!['/']);
        }
        let first = if self.is_absolute() {
            "/".to_string()
        } else {
            pieces[0].clone()
        };
        assert(!is_rooted(self@) ==> first@ == whole[0]);
        out.push(first);
        assert(text::views(out@) =~= seq![first@] + named(whole.skip(1).take(0)));
        let mut i: usize = 1;
        while i < pieces.len()
            invariant
                1 <= i <= pieces@.len(),
                whole == text::views(pieces@),
                text::views(out@) == seq![first@] + named(whole.skip(1).take(i - 1)),
            decreases pieces.len() - i,
        {
            let ghost upto = whole.skip(1).take(i as int);
            assert(upto.drop_last() =~= whole.skip(1).take(i - 1));
            assert(upto.last() == pieces@[i as int]@);
            if names_something(pieces[i].as_str()) {
                let piece = pieces[i].clone();
                proof {
                    text::lemma_views_push(out@, piece);
                }
                out.push(piece);
                assert(text::views(out@) =~= seq![first@] + named(upto));
            }
            i = i + 1;
        }
        assert(whole.skip(1).take(i - 1) =~= whole.skip(1));
        out
    }

    /// Whether two paths have the same components.
    pub fn is(&self, other: &PathBuf) -> (r: bool)
        ensures
            r == same_place(self@, other@),
    {
        same_texts(&self.components(), &other.components())
    }

    /// Whether the path is `base` or lies below it.
    pub fn starts_with(&self, base: &PathBuf) -> (r: bool)
        ensures
            r == within(self@, base@),
    {
        begins_with(&self.components(), &base.components())
    }

    /// `path` below this one, or `path` itself where it begins at the root.
    pub fn join(&self, path: &str) -> (r: PathBuf)
        ensures
            r@ == joined(self@, path@),
    {
        let n: usize = self.text.as_str().unicode_len();
        if n == 0 || (path.unicode_len() > 0 && path.get_char(0) == '/') {
            return PathBuf { text: path.to_string() };
        }
        let mut text = self.text.clone();
        if self.text.as_str().get_char(n - 1) != '/' {
            text.push('/');
        }
        text.append(path);
        PathBuf { text }
    }

    /// Whether the path comes before another, in the order of paths.
    pub fn before(&self, other: &PathBuf) -> (r: bool)
        ensures
            r == components_less(components(self@), components(other@)),
    {
        let a = self.components();
        let b = other.components();
        let ghost x = components(self@);
        let ghost y = components(other@);
        assert(x.len() == a@.len() && y.len() == b@.len());
        assert(x.skip(0) =~= x && y.skip(0) =~= y);
        let mut i: usize = 0;
        while i < a.len() && i < b.len()
            invariant
                x == components(self@),
                y == components(other@),
                x == text::views(a@),
                y == text::views(b@),
                i <= a@.len(),
                i <= b@.len(),
                components_less(x, y) == components_less(x.skip(i as int), y.skip(i as int)),
            decreases a.len() - i,
        {
            assert(x.skip(i as int).skip(1) =~= x.skip(i + 1));
            assert(y.skip(i as int).skip(1) =~= y.skip(i + 1));
            assert(x.skip(i as int)[0] == a@[i as int]@);
            assert(y.skip(i as int)[0] == b@[i as int]@);
            if component_before(a[i].as_str(), b[i].as_str()) {
                return true;
            }
            if !text::same(a[i].as_str(), b[i].as_str()) {
                return false;
            }
            i = i + 1;
        }
        i < b.len()
    }

    /// The last component, where it names something other than a parent.
    pub fn file_name(&self) -> (r: Option<String>)
        ensures
            text::view_of(r) == file_name(self@),
    {
        proof {
            reveal_strlit("/");
            reveal_strlit(".");
            reveal_strlit("..");
            assert("/"@ =~= seq!['/']);
            assert("."@ =~= seq!['.']);
            assert(".."@ =~= seq!['.', '.']);
        }
        let parts = self.components();
        assert(text::views(parts@).len() == parts@.len());
        if parts.len() == 0 {
            return None;
        }
        let last = parts[parts.len() - 1].clone();
        assert(last@ == components(self@).last());
        if text::same(last.as_str(), "/") || text::same(last.as_str(), ".") || text::same(
            last.as_str(),
            "..",
        ) {
            None
        } else {
            Some(last)
        }
    }

    /// The path with the extension of its file name replaced, or left alone
    /// where it has no file name.
    pub fn with_extension(&self, extension: &str) -> (r: PathBuf)
        ensures
            r@ == with_extension(self@, extension@),
    {
        let name = match self.file_name() {
            Some(name) => name,
            None => {
                return self.clone();
            },
        };
        proof {
            lemma_file_name_ends(self@);
        }
        let empty = PathBuf { text: String::new() };
        assert(components(empty@) =~= components(self@).subrange(0, 0));
        assert(within(self@, empty@));
        let whole = match self.strip_prefix(&empty) {
            Some(whole) => whole,
            None => self.clone(),
        };
        assert(whole@ == remainder(self@, 0));
        let end: usize = whole.text.as_str().unicode_len() - name.as_str().unicode_len() + stem_len(
            name.as_str(),
        );
        let mut text = whole.text.as_str().substring_char(0, end).to_string();
        assert(text@ =~= whole@.take(end as int));
        if extension.unicode_len() > 0 {
            text.push('.');
            text.append(extension);
        }
        PathBuf { text }
    }

    /// What is left of the path below `base`, where it lies within `base`.
    pub fn strip_prefix(&self, base: &PathBuf) -> (r: Option<PathBuf>)
        ensures
            match r {
                Some(rest) => within(self@, base@) && rest@ == remainder(
                    self@,
                    components(base@).len(),
                ),
                None => !within(self@, base@),
            },
    {
        let parts = base.components();
        assert(text::views(parts@).len() == parts@.len());
        if !self.starts_with(base) {
            return None;
        }
        if self.text.as_str().unicode_len() == 0 {
            return Some(self.clone());
        }
        let n: usize = parts.len();
        let pieces = text::pieces(self.text.as_str(), '/');
        let ghost whole = text::split(self@, '/');
        proof {
            text::lemma_split_len(self@, '/');
            assert(text::views(pieces@).len() == pieces@.len());
        }
        let mut from: usize = 1;
        let mut to: usize = pieces.len();
        if n > 0 {
            from = skip_front(&pieces, 1, n - 1);
        }
        to = skip_back(&pieces, from);
        if n == 0 {
            if self.is_absolute() && to == 1 {
                proof {
                    reveal_strlit("/");
                    assert("/"@ =~= seq!['/']);
                }
                return Some(PathBuf { text: "/".to_string() });
            }
            from = 0;
        }
        let kept = slice_of(&pieces, from, to);
        proof {
            reveal_strlit("/");
            assert("/"@ =~= seq!['/']);
            if n == 0 {
                assert(text::views(kept@) =~= seq![whole[0]] + trim_back(whole.skip(1)));
            }
        }
        Some(PathBuf { text: text::joined(&kept, "/") })
    }
}

/// The length of a file name without its extension.
fn stem_len(name: &str) -> (r: usize)
    ensures
        r == stem(name@).len(),
        r <= name@.len(),
{
    let chars = text::chars_of(name);
    let n: usize = chars.len();
    let mut i: usize = n;
    assert(name@.take(n as int) =~= name@);
    proof {
        lemma_last_dot(name@);
    }
    while i > 0
        invariant
            chars@ == name@,
            n == name@.len(),
            i <= n,
            last_dot(name@) == last_dot(name@.take(i as int)),
        decreases i,
    {
        assert(name@.take(i as int).last() == chars@[i - 1]);
        assert(name@.take(i as int).drop_last() =~= name@.take(i - 1));
        if chars[i - 1] == '.' {
            return if i > 1 {
                i - 1
            } else {
                n
            };
        }
        i = i - 1;
    }
    n
}

/// The texts from one index up to another.
fn slice_of(texts: &Vec<String>, from: usize, to: usize) -> (r: Vec<String>)
    requires
        from <= to <= texts@.len(),
    ensures
        text::views(r@) == text::views(texts@).subrange(from as int, to as int),
{
    let mut out: Vec<String> = Vec::new();
    let mut i: usize = from;
    assert(text::views(out@) =~= text::views(texts@).subrange(from as int, from as int));
    while i < to
        invariant
            from <= i <= to <= texts@.len(),
            text::views(out@) == text::views(texts@).subrange(from as int, i as int),
        decreases to - i,
    {
        let item = texts[i].clone();
        proof {
            text::lemma_views_push(out@, item);
        }
        out.push(item);
        assert(text::views(out@) =~= text::views(texts@).subrange(from as int, i + 1));
        i = i + 1;
    }
    out
}

/// Where the pieces begin again once `n` names, and whatever names nothing
/// after them, are gone.
fn skip_front(pieces: &Vec<String>, from: usize, n: usize) -> (r: usize)
    requires
        from <= pieces@.len(),
    ensures
        from <= r <= pieces@.len(),
        text::views(pieces@).skip(r as int) == trim_front(
            after_names(text::views(pieces@).skip(from as int), n as nat),
        ),
{
    let ghost whole = text::views(pieces@);
    let mut i: usize = from;
    let mut left: usize = n;
    while left > 0 && i < pieces.len()
        invariant
            from <= i <= pieces@.len(),
            whole == text::views(pieces@),
            after_names(whole.skip(from as int), n as nat) == after_names(
                whole.skip(i as int),
                left as nat,
            ),
        decreases pieces.len() - i,
    {
        assert(whole.skip(i as int)[0] == pieces@[i as int]@);
        assert(whole.skip(i as int).skip(1) =~= whole.skip(i + 1));
        if names_something(pieces[i].as_str()) {
            left = left - 1;
        }
        i = i + 1;
    }
    let ghost rest = after_names(whole.skip(from as int), n as nat);
    assert(rest == whole.skip(i as int));
    while i < pieces.len() && !names_something(pieces[i].as_str())
        invariant
            from <= i <= pieces@.len(),
            whole == text::views(pieces@),
            trim_front(rest) == trim_front(whole.skip(i as int)),
        decreases pieces.len() - i,
    {
        assert(whole.skip(i as int)[0] == pieces@[i as int]@);
        assert(whole.skip(i as int).skip(1) =~= whole.skip(i + 1));
        i = i + 1;
    }
    if i < pieces.len() {
        assert(whole.skip(i as int)[0] == pieces@[i as int]@);
    }
    i
}

/// Where the pieces end once those at the end that name nothing are gone.
fn skip_back(pieces: &Vec<String>, from: usize) -> (r: usize)
    requires
        from <= pieces@.len(),
    ensures
        from <= r <= pieces@.len(),
        text::views(pieces@).subrange(from as int, r as int) == trim_back(
            text::views(pieces@).skip(from as int),
        ),
{
    let ghost whole = text::views(pieces@);
    let mut to: usize = pieces.len();
    assert(whole.subrange(from as int, to as int) =~= whole.skip(from as int));
    while to > from && !names_something(pieces[to - 1].as_str())
        invariant
            from <= to <= pieces@.len(),
            whole == text::views(pieces@),
            trim_back(whole.skip(from as int)) == trim_back(
                whole.subrange(from as int, to as int),
            ),
        decreases to,
    {
        assert(whole.subrange(from as int, to as int).last() == pieces@[to - 1]@);
        assert(whole.subrange(from as int, to as int).drop_last() =~= whole.subrange(
            from as int,
            to - 1,
        ));
        to = to - 1;
    }
    if to > from {
        assert(whole.subrange(from as int, to as int).last() == pieces@[to - 1]@);
    }
    to
}

// ---------------------------------------------------------------------------
// Resolution
// ---------------------------------------------------------------------------

/// Where a path written in a manifest leads, given a working directory and a
/// home directory: `~` alone and `~/` are the home directory, what follows
/// `~/` lies below it, a path from the root stays, and any other lies below
/// the working directory.
pub open spec fn resolved(raw: Seq<char>, cwd: Seq<char>, home: Seq<char>) -> Seq<char> {
    if raw == seq!['~'] || raw == seq!['~', '/'] {
        home
    } else if seq!['~', '/'].is_prefix_of(raw) {
        joined(home, raw.skip(2))
    } else {
        joined(cwd, raw)
    }
}

/// Resolves manifest path strings against an explicit working directory and
/// home directory, so resolution is deterministic and independent of the
/// environment.
#[derive(Debug)]
pub struct PathResolver {
    pub cwd: PathBuf,
    pub home: PathBuf,
}

impl PathResolver {
    /// Where this resolver says a path leads.
    pub open spec fn leads_to(&self, raw: Seq<char>) -> Seq<char> {
        resolved(raw, self.cwd@, self.home@)
    }

    pub fn new(cwd: PathBuf, home: PathBuf) -> (r: Self)
        ensures
            r.cwd == cwd,
            r.home == home,
    {
        PathResolver { cwd, home }
    }

    /// Expands a leading `~` and makes the result absolute. `~user` is *not*
    /// expanded: unlike in a shell, it is a literal relative path.
    pub fn resolve(&self, raw: &str) -> (r: PathBuf)
        ensures
            r@ == self.leads_to(raw@),
    {
        proof {
            reveal_strlit("~");
            reveal_strlit("~/");
            assert("~"@ =~= seq!['~']);
            assert("~/"@ =~= seq!['~', '/']);
        }
        if text::same(raw, "~") || text::same(raw, "~/") {
            return self.home.clone();
        }
        if text::starts_with(raw, "~/") {
            let n: usize = raw.unicode_len();
            assert(raw@.subrange(2, n as int) =~= raw@.skip(2));
            return self.home.join(raw.substring_char(2, n));
        }
        self.cwd.join(raw)
    }
}

/// A path resolves to an absolute one, however it is written, where the working
/// directory and the home directory are absolute.
pub proof fn law_resolved_paths_are_absolute(raw: Seq<char>, cwd: Seq<char>, home: Seq<char>)
    requires
        is_rooted(cwd),
        is_rooted(home),
    ensures
        is_rooted(resolved(raw, cwd, home)),
{
}

/// A path resolves to something, however it is written, where the working
/// directory and the home directory are something.
pub proof fn law_resolved_paths_are_not_empty(raw: Seq<char>, cwd: Seq<char>, home: Seq<char>)
    requires
        cwd.len() > 0,
        home.len() > 0,
    ensures
        resolved(raw, cwd, home).len() > 0,
{
}

/// The first of some roots that a path lies within, if it lies within one.
pub open spec fn root_of(path: Seq<char>, roots: Seq<Seq<char>>) -> Option<Seq<char>>
    decreases roots.len(),
{
    if roots.len() == 0 {
        None
    } else {
        match root_of(path, roots.drop_last()) {
            Some(root) => Some(root),
            None => if within(path, roots.last()) {
                Some(roots.last())
            } else {
                None
            },
        }
    }
}

/// The root found for a path covers it; where none is found, none does.
pub proof fn lemma_root_of(path: Seq<char>, roots: Seq<Seq<char>>)
    ensures
        match root_of(path, roots) {
            Some(root) => roots.contains(root) && within(path, root),
            None => forall|i: int| 0 <= i < roots.len() ==> !within(path, #[trigger] roots[i]),
        },
    decreases roots.len(),
{
    if roots.len() > 0 {
        let rest = roots.drop_last();
        lemma_root_of(path, rest);
        match root_of(path, rest) {
            Some(root) => {
                let i = choose|i: int| 0 <= i < rest.len() && rest[i] == root;
                assert(roots[i] == root);
            },
            None => {
                assert forall|i: int| 0 <= i < roots.len() - 1 implies !within(
                    path,
                    #[trigger] roots[i],
                ) by {
                    assert(rest[i] == roots[i]);
                }
                assert(roots.last() == roots[roots.len() - 1]);
            },
        }
    }
}

/// The first root that covers a path is the one found for it.
pub proof fn lemma_root_of_first(path: Seq<char>, roots: Seq<Seq<char>>, i: int)
    requires
        0 <= i < roots.len(),
        within(path, roots[i]),
        forall|j: int| 0 <= j < i ==> !within(path, #[trigger] roots[j]),
    ensures
        root_of(path, roots) == Some(roots[i]),
{
    lemma_root_of(path, roots.take(i));
    if let Some(root) = root_of(path, roots.take(i)) {
        let j = choose|j: int| 0 <= j < i && roots.take(i)[j] == root;
        assert(!within(path, roots[j]));
    }
    lemma_root_of_at(path, roots, i);
}

proof fn lemma_root_of_at(path: Seq<char>, roots: Seq<Seq<char>>, i: int)
    requires
        0 <= i < roots.len(),
        root_of(path, roots.take(i)) is None,
        within(path, roots[i]),
    ensures
        root_of(path, roots) == Some(roots[i]),
    decreases roots.len(),
{
    let rest = roots.drop_last();
    if i < rest.len() {
        assert(rest.take(i) =~= roots.take(i));
        lemma_root_of_at(path, rest, i);
    } else {
        assert(rest =~= roots.take(i));
    }
}

/// The first root that `path` lies within, or `None` if it lies outside all of
/// them. Comparison is by path component, so `~/workspaces` is not inside
/// `~/workspace` despite the common prefix of their texts.
pub fn root_containing<'a>(path: &PathBuf, roots: &'a [PathBuf]) -> (r: Option<&'a PathBuf>)
    ensures
        match r {
            Some(root) => root_of(path@, text::views(roots@)) == Some(root@),
            None => root_of(path@, text::views(roots@)) is None,
        },
{
    let ghost all = text::views(roots@);
    let mut i: usize = 0;
    assert(all.take(0) =~= seq![]);
    while i < roots.len()
        invariant
            i <= roots@.len(),
            all == text::views(roots@),
            root_of(path@, all.take(i as int)) is None,
        decreases roots.len() - i,
    {
        assert(all[i as int] == roots@[i as int]@);
        assert(all.take(i + 1).drop_last() =~= all.take(i as int));
        assert(all.take(i + 1).last() == all[i as int]);
        if path.starts_with(&roots[i]) {
            proof {
                lemma_root_of_at(path@, all, i as int);
            }
            return Some(&roots[i]);
        }
        i = i + 1;
    }
    assert(all.take(i as int) =~= all);
    None
}

/// Where a path leads depends on how it begins: from the root, it stays; `~` is the
/// home directory, and what follows `~/` lies in it; whatever else, `~name` too, lies
/// in the working directory.
pub proof fn law_a_path_leads_where_it_begins(raw: Seq<char>, cwd: Seq<char>, home: Seq<char>)
    requires
        cwd.len() > 0 && cwd.last() != '/',
        home.len() > 0 && home.last() != '/',
    ensures
        raw.len() > 0 && raw[0] == '/' ==> resolved(raw, cwd, home) == raw,
        raw == seq!['~'] ==> resolved(raw, cwd, home) == home,
        raw.len() == 2 && raw[0] == '~' && raw[1] == '/' ==> resolved(raw, cwd, home) == home,
        raw.len() > 2 && raw[0] == '~' && raw[1] == '/' && raw[2] != '/' ==> resolved(
            raw,
            cwd,
            home,
        ) == home + seq!['/'] + raw.skip(2),
        raw.len() > 2 && raw[0] == '~' && raw[1] == '/' && raw[2] == '/' ==> resolved(
            raw,
            cwd,
            home,
        ) == raw.skip(2),
        raw.len() > 0 && raw[0] != '/' && raw != seq!['~'] && !(raw.len() > 1 && raw[0] == '~'
            && raw[1] == '/') ==> resolved(raw, cwd, home) == cwd + seq!['/'] + raw,
{
    assert(home.push('/') + raw.skip(2) =~= home + seq!['/'] + raw.skip(2));
    assert(cwd.push('/') + raw =~= cwd + seq!['/'] + raw);
    if raw.len() >= 2 && raw[0] == '~' && raw[1] == '/' {
        assert(seq!['~', '/'] =~= raw.subrange(0, 2));
        if raw.len() == 2 {
            assert(raw =~= seq!['~', '/']);
        }
    }
    if seq!['~', '/'].is_prefix_of(raw) {
        assert(raw.subrange(0, 2)[0] == '~' && raw.subrange(0, 2)[1] == '/');
    }
}

proof fn lemma_join_front(names: Seq<Seq<char>>)
    requires
        names.len() > 0,
    ensures
        text::join(seq![Seq::<char>::empty()] + names, seq!['/']) == seq!['/'] + text::join(
            names,
            seq!['/'],
        ),
    decreases names.len(),
{
    let whole = seq![Seq::<char>::empty()] + names;
    let rest = names.drop_last();
    if names.len() == 1 {
        assert(whole.drop_last() =~= seq![Seq::<char>::empty()]);
        assert(text::join(whole.drop_last(), seq!['/']) =~= Seq::<char>::empty());
        assert(whole.last() == names[0]);
        assert(text::join(whole, seq!['/']) =~= seq!['/'] + names[0]);
    } else {
        lemma_join_front(rest);
        assert(whole.drop_last() =~= seq![Seq::<char>::empty()] + rest);
        assert(whole.last() == names.last());
        assert(text::join(whole, seq!['/']) =~= seq!['/'] + text::join(names, seq!['/']));
    }
}

proof fn lemma_named_all(names: Seq<Seq<char>>)
    requires
        forall|i: int| 0 <= i < names.len() ==> is_name(#[trigger] names[i]),
    ensures
        named(names) == names,
    decreases names.len(),
{
    if names.len() > 0 {
        let rest = names.drop_last();
        assert forall|i: int| 0 <= i < rest.len() implies is_name(#[trigger] rest[i]) by {
            assert(rest[i] == names[i]);
        }
        lemma_named_all(rest);
        assert(names.last() == names[names.len() - 1]);
        assert(named(names) =~= names);
    }
}

/// A path from the root has the root and each of its names for components, in order,
/// and its last name for a file name; it lies within another exactly where that one's
/// names begin its own.
pub proof fn law_a_rooted_path_is_its_names(names: Seq<Seq<char>>, outer: Seq<Seq<char>>)
    requires
        names.len() > 0,
        outer.len() > 0,
        forall|i: int|
            0 <= i < names.len() ==> (#[trigger] names[i]).len() > 0 && names[i] != seq!['.']
                && !names[i].contains('/'),
        forall|i: int|
            0 <= i < outer.len() ==> (#[trigger] outer[i]).len() > 0 && outer[i] != seq!['.']
                && !outer[i].contains('/'),
    ensures
        ({
            let path = seq!['/'] + text::join(names, seq!['/']);
            let base = seq!['/'] + text::join(outer, seq!['/']);
            &&& components(path) == seq![seq!['/']] + names
            &&& names.last() != seq!['.', '.'] ==> file_name(path) == Some(names.last())
            &&& names.last() == seq!['.', '.'] ==> file_name(path) is None
            &&& within(path, base) <==> outer.is_prefix_of(names)
            &&& same_place(path, base) <==> outer == names
        }),
{
    let path = seq!['/'] + text::join(names, seq!['/']);
    let base = seq!['/'] + text::join(outer, seq!['/']);
    lemma_components_of_names(names);
    lemma_components_of_names(outer);
    let a = seq![seq!['/']] + names;
    let b = seq![seq!['/']] + outer;
    assert(a.last() == names.last());
    assert(names.last() == names[names.len() - 1]);
    assert(names.last() != seq!['/']) by {
        if names.last() == seq!['/'] {
            assert(names.last()[0] == '/');
            assert(names.last().contains('/'));
        }
    }
    assert(a.skip(1) =~= names);
    assert(b.skip(1) =~= outer);
    if outer.is_prefix_of(names) {
        assert(b =~= a.subrange(0, b.len() as int)) by {
            assert(outer =~= names.subrange(0, outer.len() as int));
            assert forall|i: int| 0 <= i < b.len() implies b[i] == a[i] by {
                if i > 0 {
                    assert(b[i] == outer[i - 1]);
                    assert(outer[i - 1] == names.subrange(0, outer.len() as int)[i - 1]);
                }
            }
        }
    }
    if b.is_prefix_of(a) {
        assert(outer =~= names.subrange(0, outer.len() as int)) by {
            assert forall|i: int| 0 <= i < outer.len() implies outer[i] == names[i] by {
                assert(b[i + 1] == outer[i]);
                assert(a[i + 1] == names[i]);
                assert(b[i + 1] == a.subrange(0, b.len() as int)[i + 1]);
            }
        }
    }
}

proof fn lemma_components_of_names(names: Seq<Seq<char>>)
    requires
        names.len() > 0,
        forall|i: int|
            0 <= i < names.len() ==> is_name(#[trigger] names[i]) && !names[i].contains('/'),
    ensures
        components(seq!['/'] + text::join(names, seq!['/'])) == seq![seq!['/']] + names,
{
    let path = seq!['/'] + text::join(names, seq!['/']);
    let pieces = seq![Seq::<char>::empty()] + names;
    lemma_join_front(names);
    assert forall|i: int| 0 <= i < pieces.len() implies !(#[trigger] pieces[i]).contains('/') by {
        if i > 0 {
            assert(pieces[i] == names[i - 1]);
        }
    }
    text::lemma_split_join(pieces, '/');
    assert(text::split(path, '/') == pieces);
    assert(pieces.skip(1) =~= names);
    lemma_named_all(names);
}

proof fn lemma_last_dot_after(head: Seq<char>, tail: Seq<char>)
    requires
        !tail.contains('.'),
    ensures
        last_dot(head.push('.') + tail) == Some(head.len() as int),
    decreases tail.len(),
{
    let whole = head.push('.') + tail;
    if tail.len() == 0 {
        assert(whole.last() == '.');
    } else {
        let shorter = tail.drop_last();
        assert(tail[tail.len() - 1] == tail.last());
        assert(whole.last() == tail.last());
        assert(tail.last() != '.');
        assert(!shorter.contains('.')) by {
            if shorter.contains('.') {
                let k = choose|k: int| 0 <= k < shorter.len() && shorter[k] == '.';
                assert(tail[k] == '.');
            }
        }
        lemma_last_dot_after(head, shorter);
        assert(whole.drop_last() =~= head.push('.') + shorter);
    }
}

/// Replacing the extension of a file leaves it in its directory, under its name up
/// to the last dot.
pub proof fn law_a_replaced_extension_keeps_the_name(
    directory: Seq<char>,
    name: Seq<char>,
    before: Seq<char>,
    after: Seq<char>,
)
    requires
        directory.len() > 0,
        name.len() > 0 && !name.contains('/'),
        before.len() > 0 && !before.contains('/') && !before.contains('.'),
        after.len() > 0,
    ensures
        with_extension(joined(directory, name.push('.') + before), after) == joined(
            directory,
            name.push('.') + after,
        ),
{
    let file = name.push('.') + before;
    let path = joined(directory, file);
    assert(!file.contains('/')) by {
        if file.contains('/') {
            let k = choose|k: int| 0 <= k < file.len() && file[k] == '/';
            if k < name.len() {
                assert(name[k] == '/');
            } else {
                assert(k > name.len());
                assert(before[k - name.len() - 1] == '/');
            }
        }
    }
    assert(file.len() >= 3);
    assert(is_name(file));
    lemma_joined_name(directory, file);
    assert(components(path).last() == file);
    assert(file[0] == name[0]);
    assert(name.contains(name[0]));
    assert(file_name(path) == Some(file));
    lemma_last_dot_after(name, before);
    assert(file.take(name.len() as int) =~= name);
    assert(stem(file) == name);
    let pieces = text::split(path, '/');
    let head = if directory.last() == '/' {
        directory.drop_last()
    } else {
        directory
    };
    assert(path =~= head.push('/') + file);
    text::lemma_split_concat(head, '/', file);
    text::lemma_split_plain(file, '/');
    text::lemma_split_len(head, '/');
    assert(path =~= head + seq!['/'] + file);
    assert(pieces.last() == file);
    let tail = pieces.skip(1);
    assert(tail.last() == file);
    assert(trim_back(tail) == tail);
    assert(seq![pieces[0]] + tail =~= pieces);
    text::lemma_join_split(path, '/');
    assert(remainder(path, 0) == path);
    let kept = path.take(path.len() - file.len() + name.len());
    assert(kept.push('.') + after =~= joined(directory, name.push('.') + after));
}

/// A path is found to be covered exactly where one of the roots covers it, and then
/// by the first that does.
pub proof fn law_the_first_root_that_covers_a_path_is_found(
    path: Seq<char>,
    roots: Seq<Seq<char>>,
    i: int,
)
    ensures
        root_of(path, roots) is None <==> forall|k: int|
            0 <= k < roots.len() ==> !within(path, #[trigger] roots[k]),
        0 <= i < roots.len() && within(path, roots[i]) && (forall|k: int|
            0 <= k < i ==> !within(path, #[trigger] roots[k])) ==> root_of(path, roots) == Some(
            roots[i],
        ),
{
    lemma_root_of(path, roots);
    if let Some(root) = root_of(path, roots) {
        let k = choose|k: int| 0 <= k < roots.len() && roots[k] == root;
        assert(within(path, roots[k]));
    }
    if 0 <= i < roots.len() && within(path, roots[i]) && (forall|k: int|
        0 <= k < i ==> !within(path, #[trigger] roots[k])) {
        lemma_root_of_first(path, roots, i);
    }
}

/// Paths are ordered by the first component in which they differ, names as texts are,
/// and before whatever lies below them.
pub proof fn law_paths_are_ordered_by_component(
    common: Seq<Seq<char>>,
    a: Seq<char>,
    x: Seq<Seq<char>>,
    b: Seq<char>,
    y: Seq<Seq<char>>,
)
    requires
        component_rank(a) == 3,
        component_rank(b) == 3,
    ensures
        text::less(a, b) ==> components_less(
            common + (seq![a] + x),
            common + (seq![b] + y),
        ),
        components_less(common, common + (seq![b] + y)),
        !components_less(common + (seq![b] + y), common),
        forall|part: Seq<char>|
            #[trigger] component_rank(part) == 3 <==> part != seq!['/'] && part != seq!['.'] && part
                != seq!['.', '.'],
    decreases common.len(),
{
    let p = seq![a] + x;
    let q = seq![b] + y;
    assert(p[0] == a && q[0] == b);
    if common.len() == 0 {
        assert(common + p =~= p);
        assert(common + q =~= q);
    } else {
        law_paths_are_ordered_by_component(common.skip(1), a, x, b, y);
        assert((common + p).skip(1) =~= common.skip(1) + p);
        assert((common + q).skip(1) =~= common.skip(1) + q);
        assert((common + p)[0] == common[0] && (common + q)[0] == common[0]);
        text::lemma_less_asymmetric(common[0], common[0]);
    }
}

proof fn lemma_components_with(base: Seq<char>, piece: Seq<char>, rest: Seq<char>)
    requires
        base.len() > 0,
        !is_name(piece),
        !piece.contains('/'),
    ensures
        components(base + seq!['/'] + piece + seq!['/'] + rest) == components(
            base + seq!['/'] + rest,
        ),
{
    let long = base + seq!['/'] + piece + seq!['/'] + rest;
    let short = base + seq!['/'] + rest;
    let a = text::split(base, '/');
    let b = text::split(rest, '/');
    text::lemma_split_concat(base + seq!['/'] + piece, '/', rest);
    text::lemma_split_concat(base, '/', piece);
    text::lemma_split_plain(piece, '/');
    text::lemma_split_concat(base, '/', rest);
    text::lemma_split_len(base, '/');
    text::lemma_split_len(rest, '/');
    assert(text::split(long, '/') =~= a + seq![piece] + b);
    assert(text::split(short, '/') =~= a + b);
    assert((a + seq![piece] + b).skip(1) =~= a.skip(1) + seq![piece] + b);
    assert((a + b).skip(1) =~= a.skip(1) + b);
    lemma_named_concat(a.skip(1) + seq![piece], b);
    lemma_named_concat(a.skip(1), seq![piece]);
    lemma_named_concat(a.skip(1), b);
    assert(seq![piece].drop_last() =~= seq![]);
    assert(named(seq![piece]) =~= seq![]) by {
        reveal_with_fuel(named, 2);
    }
    assert(named(a.skip(1)) + named(seq![piece]) =~= named(a.skip(1)));
    assert(long[0] == base[0] && short[0] == base[0]);
}

/// Two separators in a row, and a `.` between two, change nothing of where a path
/// leads.
pub proof fn law_empty_and_dot_pieces_do_not_count(base: Seq<char>, rest: Seq<char>)
    requires
        base.len() > 0,
    ensures
        same_place(base + seq!['/', '/'] + rest, base + seq!['/'] + rest),
        same_place(base + seq!['/', '.', '/'] + rest, base + seq!['/'] + rest),
{
    lemma_components_with(base, seq![], rest);
    lemma_components_with(base, seq!['.'], rest);
    assert(base + seq!['/'] + seq![] + seq!['/'] + rest =~= base + seq!['/', '/'] + rest);
    assert(base + seq!['/'] + seq!['.'] + seq!['/'] + rest =~= base + seq!['/', '.', '/'] + rest);
}

} // verus!

//! Text as sequences of characters: what splitting, trimming, joining,
//! ordering and number forms mean, with verified functions for each.
use vstd::prelude::*;

verus! {

/// Appends one character to a string: `String::push`, which documents that it
/// appends the given `char` to the end of the string.
pub assume_specification[ String::push ](s: &mut String, c: char)
    ensures
        final(s)@ == old(s)@.push(c),
;

/// The elements of a sequence, each replaced by its view.
pub open spec fn views<T: View>(items: Seq<T>) -> Seq<T::V> {
    items.map_values(|item: T| item@)
}

/// An optional value, replaced by its view.
pub open spec fn view_of<T: View>(item: Option<T>) -> Option<T::V> {
    match item {
        Some(inner) => Some(inner@),
        None => None,
    }
}

/// The view of a pushed sequence is the pushed view.
pub proof fn lemma_views_push<T: View>(items: Seq<T>, item: T)
    ensures
        views(items.push(item)) == views(items).push(item@),
{
    assert(views(items.push(item)) =~= views(items).push(item@));
}

// ---------------------------------------------------------------------------
// Equality, slices and order
// ---------------------------------------------------------------------------

/// Whether two texts are the same.
pub fn same(a: &str, b: &str) -> (r: bool)
    ensures
        r == (a@ == b@),
{
    let x = a.to_string();
    let y = b.to_string();
    x.eq(&y)
}

/// Whether a list of texts holds one.
pub fn lists(names: &Vec<String>, name: &str) -> (r: bool)
    ensures
        r == views(names@).contains(name@),
{
    let ghost all = views(names@);
    let mut i: usize = 0;
    while i < names.len()
        invariant
            i <= names@.len(),
            all == views(names@),
            forall|j: int| 0 <= j < i ==> all[j] != name@,
        decreases names.len() - i,
    {
        assert(all[i as int] == names@[i as int]@);
        if same(names[i].as_str(), name) {
            return true;
        }
        i = i + 1;
    }
    false
}

/// The characters of a text.
pub fn chars_of(s: &str) -> (r: Vec<char>)
    ensures
        r@ == s@,
{
    let mut out: Vec<char> = Vec::new();
    for c in it: s.chars()
        invariant
            out@ == s@.take(it.index() as int),
            it.seq() == s@,
    {
        out.push(c);
        assert(s@.take(it.index() + 1) == s@.take(it.index() as int).push(c));
    }
    assert(s@.take(s@.len() as int) == s@);
    out
}

/// The text that a run of characters spells.
pub fn string_of(chars: &Vec<char>, from: usize, to: usize) -> (r: String)
    requires
        from <= to <= chars@.len(),
    ensures
        r@ == chars@.subrange(from as int, to as int),
{
    let mut out = String::new();
    let mut i: usize = from;
    assert(chars@.subrange(from as int, from as int) == Seq::<char>::empty());
    while i < to
        invariant
            from <= i <= to <= chars@.len(),
            out@ == chars@.subrange(from as int, i as int),
        decreases to - i,
    {
        out.push(chars[i]);
        assert(chars@.subrange(from as int, i + 1) == chars@.subrange(from as int, i as int).push(
            chars@[i as int],
        ));
        i = i + 1;
    }
    out
}

/// Whether a text begins with another.
pub fn starts_with(s: &str, prefix: &str) -> (r: bool)
    ensures
        r == prefix@.is_prefix_of(s@),
{
    let n: usize = prefix.unicode_len();
    if n > s.unicode_len() {
        return false;
    }
    same(s.substring_char(0, n), prefix)
}

/// Whether a text ends with another.
pub fn ends_with(s: &str, suffix: &str) -> (r: bool)
    ensures
        r == suffix@.is_suffix_of(s@),
{
    let n: usize = suffix.unicode_len();
    let m: usize = s.unicode_len();
    if n > m {
        return false;
    }
    same(s.substring_char(m - n, m), suffix)
}

/// Whether `needle` occurs somewhere in `s`.
pub open spec fn contains_text(s: Seq<char>, needle: Seq<char>) -> bool {
    exists|i: int|
        0 <= i <= s.len() - needle.len() && #[trigger] s.subrange(i, i + needle.len()) == needle
}

/// Whether `needle` occurs somewhere in `s`.
pub fn contains(s: &str, needle: &str) -> (r: bool)
    ensures
        r == contains_text(s@, needle@),
{
    let n: usize = needle.unicode_len();
    let m: usize = s.unicode_len();
    if n > m {
        return false;
    }
    let mut i: usize = 0;
    while i <= m - n
        invariant
            n == needle@.len(),
            m == s@.len(),
            n <= m,
            i <= m - n + 1,
            forall|j: int| 0 <= j < i ==> #[trigger] s@.subrange(j, j + n) != needle@,
        decreases m - n + 1 - i,
    {
        if same(s.substring_char(i, i + n), needle) {
            return true;
        }
        if i == m - n {
            return false;
        }
        i = i + 1;
    }
    false
}

/// The order of texts: by their first differing character, a text before
/// whatever extends it.
pub open spec fn less(a: Seq<char>, b: Seq<char>) -> bool
    decreases a.len(),
{
    b.len() > 0 && (a.len() == 0 || a[0] < b[0] || (a[0] == b[0] && less(a.skip(1), b.skip(1))))
}

/// Two texts are in order one way, or the other, or are the same.
pub proof fn lemma_less_total(a: Seq<char>, b: Seq<char>)
    ensures
        less(a, b) || less(b, a) || a == b,
    decreases a.len(),
{
    if a.len() > 0 && b.len() > 0 && a[0] == b[0] {
        lemma_less_total(a.skip(1), b.skip(1));
        if a.skip(1) == b.skip(1) {
            assert(a =~= seq![a[0]] + a.skip(1));
            assert(b =~= seq![b[0]] + b.skip(1));
        }
    } else if a.len() == 0 && b.len() == 0 {
        assert(a =~= b);
    }
}

/// No two texts are in order both ways, nor is a text before itself.
pub proof fn lemma_less_asymmetric(a: Seq<char>, b: Seq<char>)
    ensures
        !(less(a, b) && less(b, a)),
        !less(a, a),
    decreases a.len(),
{
    if a.len() > 0 {
        lemma_less_asymmetric(a.skip(1), b.skip(1));
    }
}

/// The order of texts is transitive.
pub proof fn lemma_less_transitive(a: Seq<char>, b: Seq<char>, c: Seq<char>)
    requires
        less(a, b),
        less(b, c),
    ensures
        less(a, c),
    decreases a.len(),
{
    if a.len() > 0 && a[0] == b[0] && b[0] == c[0] {
        lemma_less_transitive(a.skip(1), b.skip(1), c.skip(1));
    }
}

/// Whether `a` comes before `b`.
pub fn before(a: &str, b: &str) -> (r: bool)
    ensures
        r == less(a@, b@),
{
    let x = chars_of(a);
    let y = chars_of(b);
    let mut i: usize = 0;
    assert(a@.skip(0) == a@);
    assert(b@.skip(0) == b@);
    while i < x.len() && i < y.len()
        invariant
            x@ == a@,
            y@ == b@,
            i <= x@.len(),
            i <= y@.len(),
            less(a@, b@) == less(a@.skip(i as int), b@.skip(i as int)),
        decreases x.len() - i,
    {
        assert(a@.skip(i as int).skip(1) == a@.skip(i + 1));
        assert(b@.skip(i as int).skip(1) == b@.skip(i + 1));
        if x[i] < y[i] {
            return true;
        }
        if x[i] > y[i] {
            return false;
        }
        i = i + 1;
    }
    i < y.len()
}

// ---------------------------------------------------------------------------
// Splitting and joining
// ---------------------------------------------------------------------------

/// The pieces of a text between occurrences of `mark`; always at least one.
pub open spec fn split(s: Seq<char>, mark: char) -> Seq<Seq<char>>
    decreases s.len(),
{
    if s.len() == 0 {
        seq![Seq::<char>::empty()]
    } else {
        let rest = split(s.drop_last(), mark);
        if s.last() == mark {
            rest.push(Seq::empty())
        } else {
            rest.drop_last().push(rest.last().push(s.last()))
        }
    }
}

/// The pieces joined, with `mark` between each two of them.
pub open spec fn join(parts: Seq<Seq<char>>, mark: Seq<char>) -> Seq<char>
    decreases parts.len(),
{
    if parts.len() == 0 {
        Seq::empty()
    } else if parts.len() == 1 {
        parts[0]
    } else {
        join(parts.drop_last(), mark) + mark + parts.last()
    }
}

pub proof fn lemma_split_len(s: Seq<char>, mark: char)
    ensures
        split(s, mark).len() >= 1,
    decreases s.len(),
{
    if s.len() > 0 {
        lemma_split_len(s.drop_last(), mark);
    }
}

/// No piece of a split text holds the mark.
pub proof fn lemma_split_pieces(s: Seq<char>, mark: char)
    ensures
        forall|i: int|
            0 <= i < split(s, mark).len() ==> !(#[trigger] split(s, mark)[i]).contains(mark),
    decreases s.len(),
{
    lemma_split_len(s, mark);
    if s.len() > 0 {
        lemma_split_len(s.drop_last(), mark);
        lemma_split_pieces(s.drop_last(), mark);
        let rest = split(s.drop_last(), mark);
        assert forall|i: int| 0 <= i < split(s, mark).len() implies !(#[trigger] split(
            s,
            mark,
        )[i]).contains(mark) by {
            let piece = split(s, mark)[i];
            if i < rest.len() - 1 {
                assert(piece == rest[i]);
            } else if s.last() == mark {
                if i < rest.len() {
                    assert(piece == rest[i]);
                }
            } else {
                let base = rest[rest.len() - 1];
                assert(!base.contains(mark));
                assert(piece == base.push(s.last()));
                assert forall|j: int| 0 <= j < piece.len() implies piece[j] != mark by {
                    if j < base.len() {
                        assert(piece[j] == base[j]);
                    }
                }
            }
        }
    }
}

/// A text without the mark is one piece.
pub proof fn lemma_split_plain(s: Seq<char>, mark: char)
    requires
        !s.contains(mark),
    ensures
        split(s, mark) == seq![s],
    decreases s.len(),
{
    if s.len() == 0 {
        assert(s =~= Seq::empty());
    } else {
        assert forall|i: int| 0 <= i < s.drop_last().len() implies s.drop_last()[i] != mark by {
            assert(s[i] == s.drop_last()[i]);
        }
        lemma_split_plain(s.drop_last(), mark);
        assert(s.last() == s[s.len() - 1]);
        assert(s =~= s.drop_last().push(s.last()));
        assert(split(s, mark) =~= seq![s]);
    }
}

/// Splitting two texts with the mark between them splits each.
pub proof fn lemma_split_concat(a: Seq<char>, mark: char, b: Seq<char>)
    ensures
        split(a + seq![mark] + b, mark) == split(a, mark) + split(b, mark),
    decreases b.len(),
{
    let whole = a + seq![mark] + b;
    lemma_split_len(a, mark);
    lemma_split_len(b, mark);
    if b.len() == 0 {
        assert(whole.drop_last() =~= a);
        assert(split(whole, mark) =~= split(a, mark) + split(b, mark));
    } else {
        lemma_split_concat(a, mark, b.drop_last());
        lemma_split_len(b.drop_last(), mark);
        assert(whole.drop_last() =~= a + seq![mark] + b.drop_last());
        assert(whole.last() == b.last());
        assert(split(whole, mark) =~= split(a, mark) + split(b, mark));
    }
}

/// Joining the pieces of a split text gives the text back.
pub proof fn lemma_join_split(s: Seq<char>, mark: char)
    ensures
        join(split(s, mark), seq![mark]) == s,
    decreases s.len(),
{
    lemma_split_len(s, mark);
    if s.len() == 0 {
        assert(s =~= Seq::empty());
    } else {
        let rest = split(s.drop_last(), mark);
        lemma_split_len(s.drop_last(), mark);
        lemma_join_split(s.drop_last(), mark);
        assert(s =~= s.drop_last().push(s.last()));
        if s.last() == mark {
            assert(split(s, mark).drop_last() =~= rest);
            assert(join(split(s, mark), seq![mark]) =~= s);
        } else {
            assert(split(s, mark).drop_last() =~= rest.drop_last());
            if rest.len() == 1 {
                assert(join(split(s, mark), seq![mark]) =~= s);
            } else {
                assert(join(split(s, mark), seq![mark]) =~= s);
            }
        }
    }
}

/// Splitting joined pieces gives the pieces back, where none holds the mark.
pub proof fn lemma_split_join(parts: Seq<Seq<char>>, mark: char)
    requires
        parts.len() >= 1,
        forall|i: int| 0 <= i < parts.len() ==> !(#[trigger] parts[i]).contains(mark),
    ensures
        split(join(parts, seq![mark]), mark) == parts,
    decreases parts.len(),
{
    if parts.len() == 1 {
        lemma_split_plain(parts[0], mark);
        assert(parts =~= seq![parts[0]]);
    } else {
        let shorter = parts.drop_last();
        assert forall|i: int| 0 <= i < shorter.len() implies !(#[trigger] shorter[i]).contains(
            mark,
        ) by {
            assert(parts[i] == shorter[i]);
        }
        lemma_split_join(shorter, mark);
        lemma_split_concat(join(shorter, seq![mark]), mark, parts.last());
        assert(parts.last() == parts[parts.len() - 1]);
        lemma_split_plain(parts.last(), mark);
        assert(parts =~= shorter + seq![parts.last()]);
    }
}

/// The pieces of a text between occurrences of `mark`.
pub fn pieces(s: &str, mark: char) -> (r: Vec<String>)
    ensures
        views(r@) == split(s@, mark),
{
    let chars = chars_of(s);
    let mut done: Vec<String> = Vec::new();
    let mut current = String::new();
    let mut i: usize = 0;
    assert(s@.take(0) == Seq::<char>::empty());
    assert(views(done@).push(current@) =~= split(s@.take(0), mark));
    while i < chars.len()
        invariant
            chars@ == s@,
            i <= chars@.len(),
            views(done@).push(current@) == split(s@.take(i as int), mark),
        decreases chars.len() - i,
    {
        let c = chars[i];
        let ghost before = views(done@).push(current@);
        assert(s@.take(i + 1).drop_last() == s@.take(i as int));
        assert(s@.take(i + 1).last() == c);
        if c == mark {
            proof {
                lemma_views_push(done@, current);
            }
            done.push(current);
            current = String::new();
        } else {
            assert(before.drop_last() =~= views(done@));
            current.push(c);
        }
        i = i + 1;
    }
    assert(s@.take(i as int) == s@);
    proof {
        lemma_views_push(done@, current);
    }
    done.push(current);
    done
}

/// The parts joined, with `mark` between each two of them.
pub fn joined(parts: &Vec<String>, mark: &str) -> (r: String)
    ensures
        r@ == join(views(parts@), mark@),
{
    let mut out = String::new();
    let mut i: usize = 0;
    while i < parts.len()
        invariant
            i <= parts@.len(),
            out@ == join(views(parts@).take(i as int), mark@),
        decreases parts.len() - i,
    {
        let ghost next = views(parts@).take(i + 1);
        assert(next.drop_last() =~= views(parts@).take(i as int));
        if i > 0 {
            out.append(mark);
        }
        out.append(parts[i].as_str());
        assert(next.last() == parts@[i as int]@);
        if i == 0 {
            assert(out@ =~= next[0]);
        }
        i = i + 1;
    }
    assert(views(parts@).take(i as int) =~= views(parts@));
    out
}

/// A line without the carriage return that ends it, if one does.
pub open spec fn without_return(line: Seq<char>) -> Seq<char> {
    if line.len() > 0 && line.last() == '\r' {
        line.drop_last()
    } else {
        line
    }
}

/// The lines of a text. A line ends at a line feed, which a carriage return
/// may precede; what follows the last line feed is a line unless it is empty.
pub open spec fn lines(s: Seq<char>) -> Seq<Seq<char>> {
    let parts = split(s, '\n');
    let ended = parts.drop_last().map_values(|line: Seq<char>| without_return(line));
    if parts.last().len() == 0 {
        ended
    } else {
        ended.push(parts.last())
    }
}

/// The lines of a text.
pub fn lines_of(s: &str) -> (r: Vec<String>)
    ensures
        views(r@) == lines(s@),
{
    let parts = pieces(s, '\n');
    let ghost whole = split(s@, '\n');
    proof {
        lemma_split_len(s@, '\n');
        assert(views(parts@).len() == parts@.len());
    }
    let n: usize = parts.len() - 1;
    let mut out: Vec<String> = Vec::new();
    let mut i: usize = 0;
    while i < n
        invariant
            n == parts@.len() - 1,
            i <= n,
            whole == views(parts@),
            views(out@) == whole.drop_last().map_values(
                |line: Seq<char>| without_return(line),
            ).take(i as int),
        decreases n - i,
    {
        let line = chars_of(parts[i].as_str());
        let mut end: usize = line.len();
        assert(whole[i as int] == parts@[i as int]@);
        if end > 0 && line[end - 1] == '\r' {
            end = end - 1;
        }
        let kept = string_of(&line, 0, end);
        assert(kept@ =~= without_return(whole[i as int]));
        proof {
            lemma_views_push(out@, kept);
        }
        out.push(kept);
        i = i + 1;
    }
    assert(whole.last() == parts@[n as int]@);
    let last = parts[n].clone();
    if last.as_str().unicode_len() > 0 {
        proof {
            lemma_views_push(out@, last);
        }
        out.push(last);
    }
    out
}

// ---------------------------------------------------------------------------
// White space
// ---------------------------------------------------------------------------

/// Whether a character is white space: whether Unicode gives it the property
/// `White_Space`.
pub open spec fn is_white_space(c: char) -> bool {
    ||| '\u{9}' <= c <= '\u{d}'
    ||| c == ' '
    ||| c == '\u{85}'
    ||| c == '\u{a0}'
    ||| c == '\u{1680}'
    ||| '\u{2000}' <= c <= '\u{200a}'
    ||| c == '\u{2028}'
    ||| c == '\u{2029}'
    ||| c == '\u{202f}'
    ||| c == '\u{205f}'
    ||| c == '\u{3000}'
}

/// Whether a character is white space.
pub fn white_space(c: char) -> (r: bool)
    ensures
        r == is_white_space(c),
{
    ('\u{9}' <= c && c <= '\u{d}') || c == ' ' || c == '\u{85}' || c == '\u{a0}' || c == '\u{1680}'
        || ('\u{2000}' <= c && c <= '\u{200a}') || c == '\u{2028}' || c == '\u{2029}' || c
        == '\u{202f}' || c == '\u{205f}' || c == '\u{3000}'
}

/// A text without the white space it ends with.
pub open spec fn trim_end(s: Seq<char>) -> Seq<char>
    decreases s.len(),
{
    if s.len() > 0 && is_white_space(s.last()) {
        trim_end(s.drop_last())
    } else {
        s
    }
}

/// A text without the white space it begins with.
pub open spec fn trim_start(s: Seq<char>) -> Seq<char>
    decreases s.len(),
{
    if s.len() > 0 && is_white_space(s[0]) {
        trim_start(s.skip(1))
    } else {
        s
    }
}

/// A text without the white space around it.
pub open spec fn trim(s: Seq<char>) -> Seq<char> {
    trim_start(trim_end(s))
}

/// A text without white space at either end is left alone by trimming.
pub proof fn lemma_trim_plain(s: Seq<char>)
    requires
        s.len() > 0 ==> !is_white_space(s[0]) && !is_white_space(s.last()),
    ensures
        trim(s) == s,
{
}

/// A text without the white space around it.
pub fn trimmed(s: &str) -> (r: String)
    ensures
        r@ == trim(s@),
{
    let chars = chars_of(s);
    let mut to: usize = chars.len();
    assert(s@.take(to as int) == s@);
    while to > 0 && white_space(chars[to - 1])
        invariant
            chars@ == s@,
            to <= chars@.len(),
            trim_end(s@) == trim_end(s@.take(to as int)),
        decreases to,
    {
        assert(s@.take(to as int).drop_last() == s@.take(to - 1));
        to = to - 1;
    }
    let ghost kept = s@.take(to as int);
    assert(trim_end(s@) == kept) by {
        if to > 0 {
            assert(kept.last() == s@[to - 1]);
        }
    }
    let mut from: usize = 0;
    assert(kept.skip(0) == kept);
    while from < to && white_space(chars[from])
        invariant
            chars@ == s@,
            from <= to <= chars@.len(),
            kept == s@.take(to as int),
            trim_start(kept) == trim_start(kept.skip(from as int)),
        decreases to - from,
    {
        assert(kept.skip(from as int).skip(1) == kept.skip(from + 1));
        assert(kept.skip(from as int)[0] == s@[from as int]);
        from = from + 1;
    }
    assert(trim_start(kept) == kept.skip(from as int)) by {
        if from < to {
            assert(kept.skip(from as int)[0] == s@[from as int]);
        }
    }
    assert(kept.skip(from as int) == s@.subrange(from as int, to as int));
    string_of(&chars, from, to)
}

/// The words of a text: its longest runs of characters that are not white
/// space.
pub open spec fn words(s: Seq<char>) -> Seq<Seq<char>>
    decreases s.len(),
{
    if s.len() == 0 {
        seq![]
    } else if is_white_space(s.last()) {
        words(s.drop_last())
    } else {
        let before = words(s.drop_last());
        if s.len() == 1 || is_white_space(s[s.len() - 2]) {
            before.push(seq![s.last()])
        } else {
            before.drop_last().push(before.last().push(s.last()))
        }
    }
}

proof fn lemma_words_last(s: Seq<char>)
    requires
        s.len() > 0,
        !is_white_space(s.last()),
    ensures
        words(s).len() > 0,
    decreases s.len(),
{
    if s.len() > 1 && !is_white_space(s[s.len() - 2]) {
        lemma_words_last(s.drop_last());
    }
}

/// The words of a text.
pub fn words_of(s: &str) -> (r: Vec<String>)
    ensures
        views(r@) == words(s@),
{
    let chars = chars_of(s);
    let mut out: Vec<String> = Vec::new();
    let mut i: usize = 0;
    assert(views(out@) =~= words(s@.take(0)));
    while i < chars.len()
        invariant
            chars@ == s@,
            i <= chars@.len(),
            views(out@) == words(s@.take(i as int)),
        decreases chars.len() - i,
    {
        let c = chars[i];
        let ghost now = s@.take(i + 1);
        assert(now.drop_last() == s@.take(i as int));
        assert(now.last() == c);
        if !white_space(c) {
            if i == 0 || white_space(chars[i - 1]) {
                let mut word = String::new();
                word.push(c);
                assert(word@ =~= seq![c]);
                proof {
                    lemma_views_push(out@, word);
                }
                out.push(word);
            } else {
                proof {
                    assert(s@.take(i as int).last() == s@[i - 1]);
                    lemma_words_last(s@.take(i as int));
                    assert(views(out@).len() == out@.len());
                }
                let ghost earlier = out@;
                let mut word = match out.pop() {
                    Some(word) => word,
                    None => String::new(),
                };
                assert(earlier.drop_last() == out@);
                assert(views(earlier).last() == word@);
                assert(views(earlier).drop_last() =~= views(out@));
                word.push(c);
                proof {
                    lemma_views_push(out@, word);
                }
                out.push(word);
            }
        }
        i = i + 1;
    }
    assert(s@.take(i as int) == s@);
    out
}

// ---------------------------------------------------------------------------
// Numbers
// ---------------------------------------------------------------------------

/// The character of a decimal digit.
pub open spec fn digit(d: nat) -> char {
    (48 + d) as char
}

/// A number in decimal, without leading zeros.
pub open spec fn decimal(n: nat) -> Seq<char>
    decreases n,
{
    if n < 10 {
        seq![digit(n)]
    } else {
        decimal(n / 10).push(digit(n % 10))
    }
}

/// Whether a character is a decimal digit.
pub open spec fn is_digit(c: char) -> bool {
    '0' <= c <= '9'
}

/// Whether a text is one or more decimal digits.
pub open spec fn is_number(s: Seq<char>) -> bool {
    s.len() > 0 && forall|i: int| 0 <= i < s.len() ==> is_digit(#[trigger] s[i])
}

/// The number that decimal digits spell.
pub open spec fn number(s: Seq<char>) -> nat
    decreases s.len(),
{
    if s.len() == 0 {
        0
    } else {
        number(s.drop_last()) * 10 + (s.last() as nat - 48) as nat
    }
}

/// What a text reads as, as an unsigned number that may be no greater than
/// `limit`: decimal digits, which one plus sign may precede.
pub open spec fn read_number(s: Seq<char>, limit: nat) -> Option<nat> {
    let digits = if s.len() > 0 && s[0] == '+' {
        s.skip(1)
    } else {
        s
    };
    if is_number(digits) && number(digits) <= limit {
        Some(number(digits))
    } else {
        None
    }
}

/// A number in decimal reads back as itself, and holds nothing but digits.
pub proof fn lemma_decimal(n: nat)
    ensures
        is_number(decimal(n)),
        number(decimal(n)) == n,
        n <= u64::MAX ==> read_number(decimal(n), u64::MAX as nat) == Some(n),
    decreases n,
{
    if n < 10 {
        reveal_with_fuel(number, 2);
        assert(decimal(n).drop_last() =~= Seq::empty());
        assert(decimal(n).last() == digit(n));
    } else {
        lemma_decimal(n / 10);
        let shorter = decimal(n / 10);
        assert(decimal(n).drop_last() =~= shorter);
        assert(decimal(n).last() == digit(n % 10));
        assert forall|i: int| 0 <= i < decimal(n).len() implies is_digit(#[trigger] decimal(n)[i]) by {
            if i < shorter.len() {
                assert(decimal(n)[i] == shorter[i]);
            }
        }
    }
    assert(is_digit(decimal(n)[0]));
}

/// Different numbers have different decimal forms.
pub proof fn lemma_decimal_injective(a: nat, b: nat)
    ensures
        decimal(a) == decimal(b) ==> a == b,
{
    lemma_decimal(a);
    lemma_decimal(b);
}

/// A number in decimal.
pub fn decimal_text(n: u128) -> (r: String)
    ensures
        r@ == decimal(n as nat),
    decreases n,
{
    let d: u8 = (n % 10) as u8;
    let c: char = (48u8 + d) as char;
    let mut out = String::new();
    if n >= 10 {
        out = decimal_text(n / 10);
    }
    out.push(c);
    assert(c == digit((n % 10) as nat));
    assert(out@ =~= decimal(n as nat));
    out
}

proof fn lemma_number_grows(s: Seq<char>, i: int)
    requires
        0 <= i <= s.len(),
    ensures
        number(s.take(i)) <= number(s),
    decreases s.len(),
{
    if i == s.len() {
        assert(s.take(i) == s);
    } else {
        lemma_number_grows(s.drop_last(), i);
        assert(s.drop_last().take(i) =~= s.take(i));
    }
}

/// Reads an unsigned number.
pub fn read_u64(s: &str) -> (r: Option<u64>)
    ensures
        match r {
            Some(n) => read_number(s@, u64::MAX as nat) == Some(n as nat),
            None => read_number(s@, u64::MAX as nat) is None,
        },
{
    let chars = chars_of(s);
    let mut start: usize = 0;
    if chars.len() > 0 && chars[0] == '+' {
        start = 1;
    }
    let ghost digits = if start == 1 {
        s@.skip(1)
    } else {
        s@
    };
    if start == chars.len() {
        return None;
    }
    let mut total: u64 = 0;
    let mut i: usize = start;
    assert(digits.take(0) =~= Seq::empty());
    while i < chars.len()
        invariant
            chars@ == s@,
            start <= i <= chars@.len(),
            start <= 1,
            digits == (if start == 1 {
                s@.skip(1)
            } else {
                s@
            }),
            digits == (if s@.len() > 0 && s@[0] == '+' {
                s@.skip(1)
            } else {
                s@
            }),
            digits.len() == chars@.len() - start,
            total == number(digits.take(i - start)),
            forall|j: int| 0 <= j < i - start ==> is_digit(#[trigger] digits[j]),
        decreases chars.len() - i,
    {
        let c = chars[i];
        assert(digits[i - start] == c);
        if c < '0' || c > '9' {
            assert(!is_number(digits));
            return None;
        }
        let d: u64 = (c as u64) - 48;
        let ghost upto = digits.take(i - start + 1);
        assert(upto.drop_last() == digits.take(i - start));
        assert(upto.last() == c);
        assert(number(upto) == total * 10 + d);
        proof {
            lemma_number_grows(digits, i - start + 1);
        }
        if total > u64::MAX / 10 || total * 10 > u64::MAX - d {
            return None;
        }
        total = total * 10 + d;
        i = i + 1;
    }
    assert(digits.take(i - start) == digits);
    Some(total)
}

/// A number that may be negative, in decimal.
pub open spec fn signed(n: int) -> Seq<char> {
    if n < 0 {
        "-"@ + decimal((-n) as nat)
    } else {
        decimal(n as nat)
    }
}

/// A number that may be negative, in decimal.
pub fn signed_text(n: i32) -> (r: String)
    ensures
        r@ == signed(n as int),
{
    if n < 0 {
        let mut out = "-".to_string();
        let size: i128 = -(n as i128);
        out.append(decimal_text(size as u128).as_str());
        out
    } else {
        decimal_text(n as u128)
    }
}

/// `n` zeros.
pub open spec fn zeros(n: nat) -> Seq<char> {
    Seq::new(n, |i: int| '0')
}

/// A number in decimal, with zeros before it up to `width` characters in all.
pub open spec fn zero_padded(n: nat, width: nat) -> Seq<char> {
    let digits = decimal(n);
    if digits.len() < width {
        zeros((width - digits.len()) as nat) + digits
    } else {
        digits
    }
}

/// A number in decimal, with zeros before it up to `width` characters in all.
pub fn zero_pad(n: u128, width: usize) -> (r: String)
    ensures
        r@ == zero_padded(n as nat, width as nat),
{
    let digits = decimal_text(n);
    let len: usize = digits.as_str().unicode_len();
    let mut out = String::new();
    let mut i: usize = len;
    assert(out@ =~= zeros(0));
    while i < width
        invariant
            len <= i,
            i <= width || i == len,
            out@ == zeros((i - len) as nat),
        decreases width - i,
    {
        out.push('0');
        assert(zeros((i + 1 - len) as nat) =~= zeros((i - len) as nat).push('0'));
        i = i + 1;
    }
    out.append(digits.as_str());
    assert(zeros(0) + digits@ =~= digits@);
    out
}

/// Ten to a power.
pub open spec fn power(width: nat) -> nat
    decreases width,
{
    if width == 0 {
        1
    } else {
        10 * power((width - 1) as nat)
    }
}

/// The last `width` digits of a number.
spec fn fixed(n: nat, width: nat) -> Seq<char>
    decreases width,
{
    if width == 0 {
        Seq::empty()
    } else {
        fixed(n / 10, (width - 1) as nat).push(digit(n % 10))
    }
}

proof fn lemma_zero_padded(n: nat, width: nat)
    requires
        width > 0,
        n < power(width),
    ensures
        zero_padded(n, width) == fixed(n, width),
        decimal(n).len() <= width,
        fixed(n, width).len() == width,
    decreases width,
{
    let shorter = (width - 1) as nat;
    if width == 1 {
        reveal_with_fuel(fixed, 2);
        reveal_with_fuel(power, 2);
        assert(fixed(n, width) =~= seq![digit(n)]);
        assert(zero_padded(n, width) =~= seq![digit(n)]);
    } else {
        assert(n / 10 < power(shorter)) by (nonlinear_arith)
            requires
                n < 10 * power(shorter),
        ;
        lemma_zero_padded(n / 10, shorter);
        if n < 10 {
            assert(n / 10 == 0);
            assert(decimal(0) =~= seq![digit(0)]);
            assert(fixed(n, width) == zero_padded(0, shorter).push(digit(n)));
            assert(zero_padded(n, width) =~= zero_padded(0, shorter).push(digit(n)));
        } else {
            assert(zero_padded(n, width) =~= zero_padded(n / 10, shorter).push(digit(n % 10)));
        }
    }
}

proof fn lemma_less_push(a: Seq<char>, b: Seq<char>, c: char, d: char)
    requires
        a.len() == b.len(),
    ensures
        less(a.push(c), b.push(d)) == (less(a, b) || (a == b && c < d)),
    decreases a.len(),
{
    let x = a.push(c);
    let y = b.push(d);
    if a.len() == 0 {
        assert(a =~= b);
        reveal_with_fuel(less, 2);
        assert(x.skip(1) =~= Seq::empty());
        assert(y.skip(1) =~= Seq::empty());
    } else {
        assert(x.skip(1) =~= a.skip(1).push(c));
        assert(y.skip(1) =~= b.skip(1).push(d));
        lemma_less_push(a.skip(1), b.skip(1), c, d);
        if a[0] == b[0] {
            assert(a =~= seq![a[0]] + a.skip(1));
            assert(b =~= seq![b[0]] + b.skip(1));
            assert((a == b) == (a.skip(1) == b.skip(1)));
        }
    }
}

proof fn lemma_fixed_order(a: nat, b: nat, width: nat)
    requires
        a < power(width),
        b < power(width),
    ensures
        less(fixed(a, width), fixed(b, width)) == (a < b),
        (fixed(a, width) == fixed(b, width)) == (a == b),
        fixed(a, width).len() == width,
        fixed(b, width).len() == width,
    decreases width,
{
    if width > 0 {
        let shorter = (width - 1) as nat;
        assert(a / 10 < power(shorter)) by (nonlinear_arith)
            requires
                a < 10 * power(shorter),
        ;
        assert(b / 10 < power(shorter)) by (nonlinear_arith)
            requires
                b < 10 * power(shorter),
        ;
        lemma_fixed_order(a / 10, b / 10, shorter);
        let x = fixed(a / 10, shorter);
        let y = fixed(b / 10, shorter);
        lemma_less_push(x, y, digit(a % 10), digit(b % 10));
        assert(x.push(digit(a % 10)).drop_last() =~= x);
        assert(y.push(digit(b % 10)).drop_last() =~= y);
        assert(x.push(digit(a % 10)).last() == digit(a % 10));
        assert(y.push(digit(b % 10)).last() == digit(b % 10));
    }
}

/// Numbers of at most `width` digits, padded to that width, are in order as
/// texts where they are in order as numbers.
pub proof fn lemma_zero_padded_order(a: nat, b: nat, width: nat)
    requires
        width > 0,
        a < power(width),
        b < power(width),
    ensures
        less(zero_padded(a, width), zero_padded(b, width)) == (a < b),
{
    lemma_zero_padded(a, width);
    lemma_zero_padded(b, width);
    lemma_fixed_order(a, b, width);
}

/// Texts with a common beginning are in order as what follows it is.
pub proof fn lemma_less_prefix(common: Seq<char>, a: Seq<char>, b: Seq<char>)
    ensures
        less(common + a, common + b) == less(a, b),
    decreases common.len(),
{
    if common.len() == 0 {
        assert(common + a =~= a);
        assert(common + b =~= b);
    } else {
        lemma_less_prefix(common.skip(1), a, b);
        assert((common + a).skip(1) =~= common.skip(1) + a);
        assert((common + b).skip(1) =~= common.skip(1) + b);
    }
}

// ---------------------------------------------------------------------------
// Hexadecimal, width
// ---------------------------------------------------------------------------

/// The character of a hexadecimal digit, in lower case.
pub open spec fn hex_digit(d: int) -> char {
    if d < 10 {
        (48 + d) as char
    } else {
        (87 + d) as char
    }
}

/// Bytes in hexadecimal, two lower-case digits to a byte.
pub open spec fn hex(bytes: Seq<u8>) -> Seq<char>
    decreases bytes.len(),
{
    if bytes.len() == 0 {
        Seq::empty()
    } else {
        hex(bytes.drop_last()).push(hex_digit(bytes.last() as int / 16)).push(
            hex_digit(bytes.last() as int % 16),
        )
    }
}

fn hex_char(d: u8) -> (r: char)
    requires
        d < 16,
    ensures
        r == hex_digit(d as int),
{
    if d < 10 {
        (48u8 + d) as char
    } else {
        (87u8 + d) as char
    }
}

/// Bytes in hexadecimal.
pub fn hex_text(bytes: &[u8]) -> (r: String)
    ensures
        r@ == hex(bytes@),
{
    let mut out = String::new();
    let mut i: usize = 0;
    while i < bytes.len()
        invariant
            i <= bytes@.len(),
            out@ == hex(bytes@.take(i as int)),
        decreases bytes.len() - i,
    {
        let b: u8 = bytes[i];
        out.push(hex_char(b / 16));
        out.push(hex_char(b % 16));
        assert(bytes@.take(i + 1).drop_last() == bytes@.take(i as int));
        assert(bytes@.take(i + 1).last() == b);
        i = i + 1;
    }
    assert(bytes@.take(i as int) == bytes@);
    out
}

/// Two hexadecimal digits determine the byte.
proof fn lemma_hex_digit_injective(a: int, b: int)
    requires
        0 <= a < 16,
        0 <= b < 16,
        hex_digit(a) == hex_digit(b),
    ensures
        a == b,
{
}

/// Different bytes have different hexadecimal forms.
pub proof fn lemma_hex_injective(a: Seq<u8>, b: Seq<u8>)
    requires
        hex(a) == hex(b),
    ensures
        a == b,
    decreases a.len(),
{
    if a.len() == 0 {
        if b.len() > 0 {
            assert(hex(b).len() >= 2);
        }
        assert(a =~= b);
    } else {
        assert(hex(a).len() >= 2);
        if b.len() == 0 {
            assert(false);
        }
        let x = hex(a.drop_last());
        let y = hex(b.drop_last());
        assert(hex(a).drop_last().drop_last() =~= x);
        assert(hex(b).drop_last().drop_last() =~= y);
        lemma_hex_injective(a.drop_last(), b.drop_last());
        assert(hex(a).last() == hex_digit(a.last() as int % 16));
        assert(hex(b).last() == hex_digit(b.last() as int % 16));
        assert(hex(a).drop_last().last() == hex_digit(a.last() as int / 16));
        assert(hex(b).drop_last().last() == hex_digit(b.last() as int / 16));
        lemma_hex_digit_injective(a.last() as int % 16, b.last() as int % 16);
        lemma_hex_digit_injective(a.last() as int / 16, b.last() as int / 16);
        assert(a =~= a.drop_last().push(a.last()));
        assert(b =~= b.drop_last().push(b.last()));
    }
}

/// A text as bytes, in UTF-8.
pub open spec fn utf8(s: Seq<char>) -> Seq<u8> {
    vstd::utf8::encode_utf8(s)
}

/// Different texts have different bytes.
pub proof fn lemma_utf8_injective(a: Seq<char>, b: Seq<char>)
    ensures
        utf8(a) == utf8(b) ==> a == b,
{
    vstd::utf8::encode_utf8_decode_utf8(a);
    vstd::utf8::encode_utf8_decode_utf8(b);
}

/// The length of a text in bytes, as UTF-8.
pub open spec fn byte_len(s: Seq<char>) -> nat {
    utf8(s).len()
}

/// `n` spaces.
pub open spec fn spaces(n: nat) -> Seq<char> {
    Seq::new(n, |i: int| ' ')
}

/// A text with spaces after it, up to `width` characters in all.
pub open spec fn padded(s: Seq<char>, width: nat) -> Seq<char> {
    if s.len() < width {
        s + spaces((width - s.len()) as nat)
    } else {
        s
    }
}

/// A text with spaces after it, up to `width` characters in all.
pub fn pad(s: &str, width: usize) -> (r: String)
    ensures
        r@ == padded(s@, width as nat),
{
    let n: usize = s.unicode_len();
    let mut out = s.to_string();
    let mut i: usize = n;
    assert(s@ =~= s@ + spaces(0));
    while i < width
        invariant
            n == s@.len(),
            n <= i,
            i <= width || i == n,
            out@ == s@ + spaces((i - n) as nat),
        decreases width - i,
    {
        out.push(' ');
        assert(spaces((i + 1 - n) as nat) =~= spaces((i - n) as nat).push(' '));
        assert(out@ =~= s@ + spaces((i + 1 - n) as nat));
        i = i + 1;
    }
    out
}

// ---------------------------------------------------------------------------
// Sorting
// ---------------------------------------------------------------------------

/// Items in order of their names, with one more put after every item whose
/// name does not come later.
pub open spec fn inserted<V>(items: Seq<(Seq<char>, V)>, item: (Seq<char>, V)) -> Seq<
    (Seq<char>, V),
>
    decreases items.len(),
{
    if items.len() == 0 || !less(item.0, items.last().0) {
        items.push(item)
    } else {
        inserted(items.drop_last(), item).push(items.last())
    }
}

/// Items in order of their names; those of one name stay in the order they
/// were in.
pub open spec fn sorted<V>(items: Seq<(Seq<char>, V)>) -> Seq<(Seq<char>, V)>
    decreases items.len(),
{
    if items.len() == 0 {
        items
    } else {
        inserted(sorted(items.drop_last()), items.last())
    }
}

/// Whether no item comes before an earlier one.
pub open spec fn in_order<V>(items: Seq<(Seq<char>, V)>) -> bool {
    forall|i: int, j: int|
        0 <= i < j < items.len() ==> !less((#[trigger] items[j]).0, (#[trigger] items[i]).0)
}

proof fn lemma_inserted<V>(items: Seq<(Seq<char>, V)>, item: (Seq<char>, V))
    requires
        in_order(items),
    ensures
        in_order(inserted(items, item)),
        inserted(items, item).to_multiset() == items.to_multiset().insert(item),
        inserted(items, item).len() == items.len() + 1,
    decreases items.len(),
{
    broadcast use vstd::seq_lib::group_to_multiset_ensures;

    let r = inserted(items, item);
    if items.len() == 0 || !less(item.0, items.last().0) {
        assert forall|i: int, j: int| 0 <= i < j < r.len() implies !less(
            (#[trigger] r[j]).0,
            (#[trigger] r[i]).0,
        ) by {
            if j == items.len() {
                if i < items.len() - 1 {
                    let last = items[items.len() - 1];
                    assert(!less(last.0, items[i].0));
                    if less(item.0, items[i].0) {
                        lemma_less_total(items[i].0, last.0);
                        if less(items[i].0, last.0) {
                            lemma_less_transitive(item.0, items[i].0, last.0);
                        }
                    }
                }
            } else {
                assert(r[i] == items[i] && r[j] == items[j]);
            }
        }
    } else {
        let rest = items.drop_last();
        assert(in_order(rest));
        lemma_inserted(rest, item);
        let before = inserted(rest, item);
        assert(items =~= rest.push(items.last()));
        assert forall|i: int, j: int| 0 <= i < j < r.len() implies !less(
            (#[trigger] r[j]).0,
            (#[trigger] r[i]).0,
        ) by {
            if j == before.len() {
                let last = items.last();
                assert(before.to_multiset().contains(before[i])) by {
                    assert(before.contains(before[i]));
                }
                if before[i] == item {
                    lemma_less_asymmetric(item.0, last.0);
                } else {
                    assert(rest.to_multiset().contains(before[i]));
                    assert(rest.contains(before[i]));
                    let k = choose|k: int| 0 <= k < rest.len() && rest[k] == before[i];
                    assert(items[k] == before[i]);
                    assert(items[items.len() - 1] == last);
                }
            } else {
                assert(r[i] == before[i] && r[j] == before[j]);
            }
        }
        assert(rest.push(items.last()).to_multiset() =~= rest.to_multiset().insert(items.last()));
        assert(r.to_multiset() =~= items.to_multiset().insert(item));
    }
}

/// Sorting keeps every item, and puts them in order.
pub proof fn lemma_sorted<V>(items: Seq<(Seq<char>, V)>)
    ensures
        in_order(sorted(items)),
        sorted(items).to_multiset() == items.to_multiset(),
        sorted(items).len() == items.len(),
    decreases items.len(),
{
    broadcast use vstd::seq_lib::group_to_multiset_ensures;

    if items.len() > 0 {
        lemma_sorted(items.drop_last());
        lemma_inserted(sorted(items.drop_last()), items.last());
        assert(items =~= items.drop_last().push(items.last()));
    }
}

proof fn lemma_inserted_at<V>(items: Seq<(Seq<char>, V)>, item: (Seq<char>, V), k: int)
    requires
        0 <= k <= items.len(),
        forall|j: int| k <= j < items.len() ==> less(item.0, (#[trigger] items[j]).0),
        k > 0 ==> !less(item.0, items[k - 1].0),
    ensures
        inserted(items, item) == items.insert(k, item),
    decreases items.len(),
{
    if k == items.len() {
        assert(items.insert(k, item) =~= items.push(item));
    } else {
        assert(items.last() == items[items.len() - 1]);
        lemma_inserted_at(items.drop_last(), item, k);
        assert(items.insert(k, item) =~= items.drop_last().insert(k, item).push(items.last()));
    }
}

/// The items in order of their names.
pub fn sort_pairs<T: View>(items: Vec<(String, T)>) -> (r: Vec<(String, T)>)
    ensures
        views(r@) == sorted(views(items@)),
{
    let ghost whole = views(items@);
    let n: usize = items.len();
    let mut rest = items;
    let mut out: Vec<(String, T)> = Vec::new();
    let mut i: usize = 0;
    assert(views(out@) =~= sorted(whole.take(0)));
    while i < n
        invariant
            i <= n,
            n == whole.len(),
            views(rest@) == whole.skip(i as int),
            views(out@) == sorted(whole.take(i as int)),
        decreases n - i,
    {
        assert(views(rest@).len() == rest@.len());
        let ghost earlier = rest@;
        let item = rest.remove(0);
        assert(item@ == whole[i as int]) by {
            assert(views(earlier)[0] == item@);
        }
        assert(views(rest@) =~= whole.skip(i + 1)) by {
            assert forall|j: int| 0 <= j < rest@.len() implies views(rest@)[j] == whole.skip(
                i + 1,
            )[j] by {
                assert(rest@[j] == earlier[j + 1]);
                assert(views(earlier)[j + 1] == whole.skip(i as int)[j + 1]);
            }
        }
        let mut k: usize = out.len();
        while k > 0 && before(item.0.as_str(), out[k - 1].0.as_str())
            invariant
                k <= out@.len(),
                forall|j: int| k <= j < out@.len() ==> less(item.0@, (#[trigger] out@[j]).0@),
            decreases k,
        {
            k = k - 1;
        }
        let ghost sofar = views(out@);
        proof {
            assert forall|j: int| k <= j < sofar.len() implies less(
                item@.0,
                (#[trigger] sofar[j]).0,
            ) by {
                assert(sofar[j] == out@[j]@);
            }
            if k > 0 {
                assert(sofar[k - 1] == out@[k - 1]@);
            }
            lemma_inserted_at(sofar, item@, k as int);
            assert(whole.take(i + 1).drop_last() =~= whole.take(i as int));
            assert(whole.take(i + 1).last() == item@);
        }
        out.insert(k, item);
        assert(views(out@) =~= sofar.insert(k as int, item@));
        i = i + 1;
    }
    assert(whole.take(i as int) =~= whole);
    out
}

// ---------------------------------------------------------------------------
// Laws
// ---------------------------------------------------------------------------

/// Texts are ordered by the first character in which they differ, and a text comes
/// before whatever extends it.
pub proof fn law_texts_are_ordered_by_their_first_difference(
    common: Seq<char>,
    a: char,
    x: Seq<char>,
    b: char,
    y: Seq<char>,
)
    ensures
        a < b ==> less(common + seq![a] + x, common + seq![b] + y) && !less(
            common + seq![b] + y,
            common + seq![a] + x,
        ),
        less(common, common + seq![b] + y),
        !less(common + seq![b] + y, common),
{
    let p = seq![a] + x;
    let q = seq![b] + y;
    assert(common + seq![a] + x =~= common + p);
    assert(common + seq![b] + y =~= common + q);
    lemma_less_prefix(common, p, q);
    lemma_less_prefix(common, q, p);
    assert(common =~= common + Seq::<char>::empty());
    lemma_less_prefix(common, Seq::empty(), q);
    lemma_less_prefix(common, q, Seq::empty());
}

proof fn lemma_trim_end(s: Seq<char>) -> (n: int)
    ensures
        0 <= n <= s.len(),
        trim_end(s) == s.take(n),
        forall|i: int| n <= i < s.len() ==> is_white_space(#[trigger] s[i]),
        n > 0 ==> !is_white_space(s[n - 1]),
    decreases s.len(),
{
    if s.len() > 0 && is_white_space(s.last()) {
        let n = lemma_trim_end(s.drop_last());
        let shorter = s.drop_last();
        assert(shorter.take(n) =~= s.take(n));
        assert forall|i: int| n <= i < s.len() implies is_white_space(#[trigger] s[i]) by {
            if i < shorter.len() {
                assert(shorter[i] == s[i]);
            }
        }
        n
    } else {
        assert(s.take(s.len() as int) =~= s);
        s.len() as int
    }
}

proof fn lemma_trim_start(s: Seq<char>) -> (m: int)
    ensures
        0 <= m <= s.len(),
        trim_start(s) == s.skip(m),
        forall|i: int| 0 <= i < m ==> is_white_space(#[trigger] s[i]),
        m < s.len() ==> !is_white_space(s[m]),
    decreases s.len(),
{
    if s.len() > 0 && is_white_space(s[0]) {
        let shorter = s.skip(1);
        let m = lemma_trim_start(shorter);
        assert(shorter.skip(m) =~= s.skip(m + 1));
        assert forall|i: int| 0 <= i < m + 1 implies is_white_space(#[trigger] s[i]) by {
            if i > 0 {
                assert(shorter[i - 1] == s[i]);
            }
        }
        if m + 1 < s.len() {
            assert(shorter[m] == s[m + 1]);
        }
        m + 1
    } else {
        assert(s.skip(0) =~= s);
        0
    }
}

/// Trimming takes away the white space around a text, all of it and nothing else.
pub proof fn law_trimming_takes_only_the_white_space_around(s: Seq<char>)
    ensures
        exists|m: int, n: int|
            0 <= m <= n <= s.len() && #[trigger] s.subrange(m, n) == trim(s) && (forall|i: int|
                0 <= i < s.len() && (i < m || n <= i) ==> is_white_space(#[trigger] s[i])),
        trim(s).len() > 0 ==> !is_white_space(trim(s)[0]) && !is_white_space(trim(s).last()),
{
    let n = lemma_trim_end(s);
    let kept = s.take(n);
    let m = lemma_trim_start(kept);
    assert(s.subrange(m, n) =~= kept.skip(m));
    assert forall|i: int| 0 <= i < s.len() && (i < m || n <= i) implies is_white_space(
        #[trigger] s[i],
    ) by {
        if i < m {
            assert(kept[i] == s[i]);
        }
    }
    if trim(s).len() > 0 {
        assert(trim(s)[0] == kept[m]);
        assert(trim(s).last() == s[n - 1]);
    }
}

/// The words of a text hold no white space, and every character that is none is in a
/// word: two texts of words with a space between them have the words of both.
pub proof fn law_words_are_what_white_space_parts(s: Seq<char>)
    ensures
        forall|k: int|
            0 <= k < words(s).len() ==> (#[trigger] words(s)[k]).len() > 0 && forall|i: int|
                0 <= i < words(s)[k].len() ==> !is_white_space(#[trigger] words(s)[k][i]),
        s.len() > 0 && !is_white_space(s.last()) ==> words(s).len() > 0 && words(s).last().last()
            == s.last(),
        join(words(s), Seq::empty()) == s.filter(|c: char| !is_white_space(c)),
    decreases s.len(),
{
    let kept = |c: char| !is_white_space(c);
    reveal(Seq::filter);
    if s.len() > 0 {
        let shorter = s.drop_last();
        let before = words(shorter);
        let after = words(s);
        law_words_are_what_white_space_parts(shorter);
        if !is_white_space(s.last()) {
            lemma_words_last(s);
            if s.len() == 1 || is_white_space(s[s.len() - 2]) {
                assert(after.drop_last() =~= before);
                assert(after.last() =~= seq![s.last()]);
                assert(join(after, Seq::empty()) =~= join(before, Seq::empty()).push(s.last()));
            } else {
                assert(shorter.last() == s[s.len() - 2]);
                lemma_words_last(shorter);
                assert(after.drop_last() =~= before.drop_last());
                assert(after.last() == before.last().push(s.last()));
                assert(join(after, Seq::empty()) =~= join(before, Seq::empty()).push(s.last()));
                assert forall|k: int| 0 <= k < after.len() implies (#[trigger] after[k]).len() > 0
                    && forall|i: int|
                    0 <= i < after[k].len() ==> !is_white_space(#[trigger] after[k][i]) by {
                    if k < after.len() - 1 {
                        assert(after[k] == before[k]);
                    } else {
                        assert(before[k] == before.last());
                        assert forall|i: int| 0 <= i < after[k].len() implies !is_white_space(
                            #[trigger] after[k][i],
                        ) by {
                            if i < before[k].len() {
                                assert(after[k][i] == before[k][i]);
                            }
                        }
                    }
                }
            }
        }
    }
}

/// A text's lines end at its line feeds, which are in none of them.
pub proof fn law_lines_end_at_line_feeds(head: Seq<char>, line: Seq<char>)
    requires
        !line.contains('\n'),
        line.len() == 0 || line.last() != '\r',
        line.len() > 0,
    ensures
        lines(head + seq!['\n'] + line).last() == line,
        lines(head + seq!['\n'] + line.push('\n')).last() == line,
        lines(head + seq!['\n'] + line.push('\r').push('\n')).last() == line,
        lines(head + seq!['\n'] + line).len() == split(head, '\n').len() + 1,
{
    lemma_split_concat(head, '\n', line);
    lemma_split_plain(line, '\n');
    lemma_split_len(head, '\n');
    let pieces = split(head, '\n');
    let a = head + seq!['\n'] + line;
    assert(split(a, '\n') =~= pieces.push(line));
    let b = head + seq!['\n'] + line.push('\n');
    assert(b =~= a + seq!['\n'] + Seq::<char>::empty());
    lemma_split_concat(a, '\n', Seq::empty());
    assert(split(b, '\n') =~= pieces.push(line).push(Seq::empty()));
    assert(split(b, '\n').drop_last() =~= pieces.push(line));
    let returned = line.push('\r');
    assert(!returned.contains('\n')) by {
        if returned.contains('\n') {
            let k = choose|k: int| 0 <= k < returned.len() && returned[k] == '\n';
            assert(line[k] == '\n');
        }
    }
    let c = head + seq!['\n'] + returned;
    lemma_split_concat(head, '\n', returned);
    lemma_split_plain(returned, '\n');
    assert(split(c, '\n') =~= pieces.push(returned));
    let d = head + seq!['\n'] + line.push('\r').push('\n');
    assert(d =~= c + seq!['\n'] + Seq::<char>::empty());
    lemma_split_concat(c, '\n', Seq::empty());
    assert(split(d, '\n') =~= pieces.push(returned).push(Seq::empty()));
    assert(split(d, '\n').drop_last() =~= pieces.push(returned));
    assert(returned.drop_last() =~= line);
}

/// A padded text is the text and then spaces, and is as long as asked, or as the
/// text where that is longer; so is a padded number, which keeps its value.
pub proof fn law_padding_keeps_what_it_pads(s: Seq<char>, n: nat, width: nat)
    ensures
        s.is_prefix_of(padded(s, width)),
        padded(s, width).len() == (if s.len() < width {
            width
        } else {
            s.len()
        }),
        forall|i: int| s.len() <= i < padded(s, width).len() ==> padded(s, width)[i] == ' ',
        decimal(n).is_suffix_of(zero_padded(n, width)),
        zero_padded(n, width).len() == (if decimal(n).len() < width {
            width
        } else {
            decimal(n).len()
        }),
        forall|i: int|
            0 <= i < zero_padded(n, width).len() - decimal(n).len() ==> zero_padded(n, width)[i]
                == '0',
{
    assert(s =~= padded(s, width).subrange(0, s.len() as int));
    let shown = zero_padded(n, width);
    let digits = decimal(n);
    assert(digits =~= shown.subrange(shown.len() - digits.len(), shown.len() as int));
}

/// A number is written with its sign before its digits, and only where it is
/// negative.
pub proof fn law_only_negative_numbers_have_a_sign(n: int)
    ensures
        n >= 0 ==> signed(n) == decimal(n as nat),
        n < 0 ==> signed(n) == seq!['-'] + decimal((-n) as nat),
{
    reveal_strlit("-");
    assert("-"@ =~= seq!['-']);
}

/// Every byte is two hexadecimal digits, the higher first.
pub proof fn law_every_byte_is_two_digits(bytes: Seq<u8>, i: int)
    requires
        0 <= i < bytes.len(),
    ensures
        hex(bytes).len() == 2 * bytes.len(),
        hex(bytes)[2 * i] == (if bytes[i] / 16 < 10 {
            ('0' as u8 + bytes[i] / 16) as char
        } else {
            ('a' as u8 + bytes[i] / 16 - 10) as char
        }),
        hex(bytes)[2 * i + 1] == (if bytes[i] % 16 < 10 {
            ('0' as u8 + bytes[i] % 16) as char
        } else {
            ('a' as u8 + bytes[i] % 16 - 10) as char
        }),
    decreases bytes.len(),
{
    let rest = bytes.drop_last();
    if rest.len() > 0 {
        law_every_byte_is_two_digits(
            rest,
            if i < rest.len() {
                i
            } else {
                0
            },
        );
        if i < rest.len() {
            assert(rest[i] == bytes[i]);
        }
    } else {
        assert(hex(rest).len() == 0);
    }
}

} // verus!

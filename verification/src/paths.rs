//! Paths as sequences of components, as `std::path::Path::components` yields them.
//!
//! A path is held as a `Vec<String>` of its components; the root of an absolute
//! path is the component `"/"`. Two paths are equal, and one starts with the other,
//! component by component, as `Path`'s `==` and `starts_with` decide.

use vstd::prelude::*;

verus! {

/// Whether the components of `path` begin with all the components of `base`.
pub open spec fn path_starts_with(path: Seq<Seq<char>>, base: Seq<Seq<char>>) -> bool {
    base.len() <= path.len() && path.take(base.len() as int) == base
}

/// Whether the components of `path` begin with those of `base` (`Path::starts_with`).
pub fn starts_with(path: &Vec<String>, base: &Vec<String>) -> (r: bool)
    ensures
        r == path_starts_with(path.deep_view(), base.deep_view()),
{
    let n = base.len();
    if n > path.len() {
        return false;
    }
    let mut i: usize = 0;
    while i < n
        invariant
            n == base.len(),
            n <= path.len(),
            i <= n,
            forall|j: int| 0 <= j < i ==> path.deep_view()[j] == base.deep_view()[j],
        decreases n - i,
    {
        if path[i] != base[i] {
            assert(path.deep_view()[i as int] != base.deep_view()[i as int]);
            return false;
        }
        i += 1;
    }
    assert(path.deep_view().take(n as int) =~= base.deep_view());
    true
}

/// A copy of a path.
pub fn copy_path(p: &Vec<String>) -> (r: Vec<String>)
    ensures
        r.deep_view() == p.deep_view(),
{
    let mut r: Vec<String> = Vec::new();
    let mut j: usize = 0;
    while j < p.len()
        invariant
            j <= p.len(),
            r.deep_view() == p.deep_view().take(j as int),
        decreases p.len() - j,
    {
        let ghost before = r.deep_view();
        r.push(p[j].clone());
        assert(r.deep_view() =~= before.push(p.deep_view()[j as int]));
        assert(p.deep_view().take(j + 1) =~= p.deep_view().take(j as int).push(p.deep_view()[j as int]));
        j += 1;
    }
    assert(p.deep_view().take(j as int) =~= p.deep_view());
    r
}

/// The path of the entry `name` inside the directory `dir` (`dir.join(name)`).
pub fn child_path(dir: &Vec<String>, name: String) -> (r: Vec<String>)
    ensures
        r.deep_view() == dir.deep_view().push(name@),
{
    let mut r = copy_path(dir);
    let ghost before = r.deep_view();
    r.push(name);
    assert(r.deep_view() =~= before.push(name@));
    r
}

/// Whether two paths have the same components (`Path`'s `==`).
pub fn same_path(a: &Vec<String>, b: &Vec<String>) -> (r: bool)
    ensures
        r == (a.deep_view() == b.deep_view()),
{
    if a.len() != b.len() {
        assert(a.deep_view().len() != b.deep_view().len());
        return false;
    }
    let r = starts_with(a, b);
    assert(a.deep_view() =~= a.deep_view().take(b.deep_view().len() as int));
    r
}

/// The pieces of `s` between slashes, empty pieces included; there is always one more
/// piece than there are slashes.
pub open spec fn split_on_slash(s: Seq<char>) -> Seq<Seq<char>>
    decreases s.len(),
{
    if s.len() == 0 {
        seq![seq![]]
    } else {
        let r = split_on_slash(s.drop_last());
        if s.last() == '/' {
            r.push(seq![])
        } else {
            r.update(r.len() - 1, r.last().push(s.last()))
        }
    }
}

/// Whether a piece between slashes is a path component: not empty and not `.`.
pub open spec fn is_named_segment(c: Seq<char>) -> bool {
    c.len() > 0 && c != seq!['.']
}

/// The pieces of `raw` that are path components, in order.
pub open spec fn keep_named(raw: Seq<Seq<char>>) -> Seq<Seq<char>>
    decreases raw.len(),
{
    if raw.len() == 0 {
        seq![]
    } else {
        let k = keep_named(raw.drop_last());
        if is_named_segment(raw.last()) {
            k.push(raw.last())
        } else {
            k
        }
    }
}

/// The components that the relative path `s` adds when it is joined onto a
/// directory: the pieces between slashes, without empty pieces and `.`.
pub open spec fn path_segments(s: Seq<char>) -> Seq<Seq<char>> {
    keep_named(split_on_slash(s))
}

proof fn lemma_split_nonempty(s: Seq<char>)
    ensures
        split_on_slash(s).len() >= 1,
    decreases s.len(),
{
    if s.len() > 0 {
        lemma_split_nonempty(s.drop_last());
    }
}

proof fn lemma_split_without_slash(s: Seq<char>)
    requires
        forall|i: int| 0 <= i < s.len() ==> #[trigger] s[i] != '/',
    ensures
        split_on_slash(s) == seq![s],
    decreases s.len(),
{
    if s.len() > 0 {
        let t = s.drop_last();
        assert forall|i: int| 0 <= i < t.len() implies #[trigger] t[i] != '/' by {
            assert(t[i] == s[i]);
        }
        lemma_split_without_slash(t);
        assert(s.last() == s[s.len() - 1]);
        assert(s.last() != '/');
        let r = split_on_slash(t);
        assert(r == seq![t]);
        assert(r.len() == 1);
        assert(r.last() == t);
        assert(t.push(s.last()) =~= s);
        assert(split_on_slash(s) == r.update(0, t.push(s.last())));
        assert(r.update(0, s) =~= seq![s]);
    } else {
        assert(s =~= seq![]);
    }
}

proof fn lemma_split_concat(a: Seq<char>, b: Seq<char>)
    ensures
        split_on_slash(a + seq!['/'] + b) == split_on_slash(a) + split_on_slash(b),
    decreases b.len(),
{
    let ab = a + seq!['/'] + b;
    if b.len() == 0 {
        assert(ab.drop_last() =~= a);
        assert(ab =~= a + seq!['/']);
        assert(split_on_slash(a).push(seq![]) =~= split_on_slash(a) + seq![seq![]]);
    } else {
        let b0 = b.drop_last();
        let c = b.last();
        lemma_split_concat(a, b0);
        assert(ab.drop_last() =~= a + seq!['/'] + b0);
        assert(ab.last() == c);
        let x = split_on_slash(a);
        let y = split_on_slash(b0);
        lemma_split_nonempty(b0);
        if c == '/' {
            assert((x + y).push(seq![]) =~= x + y.push(seq![]));
        } else {
            let xy = x + y;
            assert(xy.last() == y.last());
            assert(xy.update(xy.len() - 1, xy.last().push(c)) =~= x + y.update(
                y.len() - 1,
                y.last().push(c),
            ));
        }
    }
}

proof fn lemma_keep_named_concat(x: Seq<Seq<char>>, y: Seq<Seq<char>>)
    ensures
        keep_named(x + y) == keep_named(x) + keep_named(y),
    decreases y.len(),
{
    if y.len() == 0 {
        assert(x + y =~= x);
        assert(keep_named(x) + keep_named(y) =~= keep_named(x));
    } else {
        lemma_keep_named_concat(x, y.drop_last());
        assert((x + y).drop_last() =~= x + y.drop_last());
        assert((x + y).last() == y.last());
        if is_named_segment(y.last()) {
            assert((keep_named(x) + keep_named(y.drop_last())).push(y.last()) =~= keep_named(x)
                + keep_named(y.drop_last()).push(y.last()));
        }
    }
}

/// The components of a path text: none for the empty text; the text itself for a
/// text without slashes, unless it is empty or `.`; and for two texts joined by a
/// slash, the components of the first followed by those of the second. These three
/// facts determine the components of every text.
pub proof fn lemma_path_segments_by_slashes(a: Seq<char>, b: Seq<char>)
    ensures
        path_segments(seq![]) == Seq::<Seq<char>>::empty(),
        (forall|i: int| 0 <= i < a.len() ==> #[trigger] a[i] != '/') ==> path_segments(a) == if a.len()
            > 0 && a != seq!['.'] {
            seq![a]
        } else {
            seq![]
        },
        path_segments(a + seq!['/'] + b) == path_segments(a) + path_segments(b),
{
    let e: Seq<char> = seq![];
    let one: Seq<Seq<char>> = seq![e];
    assert(split_on_slash(e) == one);
    assert(one.drop_last() =~= Seq::<Seq<char>>::empty());
    assert(one.last() == e);
    assert(!is_named_segment(e));
    assert(keep_named(Seq::<Seq<char>>::empty()) == Seq::<Seq<char>>::empty());
    assert(keep_named(one) == keep_named(one.drop_last()));
    assert(path_segments(e) == keep_named(one));
    if forall|i: int| 0 <= i < a.len() ==> #[trigger] a[i] != '/' {
        lemma_split_without_slash(a);
        assert(seq![a].drop_last() =~= Seq::<Seq<char>>::empty());
        assert(keep_named(Seq::<Seq<char>>::empty()) =~= Seq::<Seq<char>>::empty());
        if is_named_segment(a) {
            assert(Seq::<Seq<char>>::empty().push(a) =~= seq![a]);
        }
    }
    lemma_split_concat(a, b);
    lemma_keep_named_concat(split_on_slash(a), split_on_slash(b));
}

proof fn lemma_keep_named_push(raw: Seq<Seq<char>>, c: Seq<char>)
    ensures
        keep_named(raw.push(c)) == if is_named_segment(c) {
            keep_named(raw).push(c)
        } else {
            keep_named(raw)
        },
{
    assert(raw.push(c).drop_last() =~= raw);
}

fn is_component(path: &str, start: usize, end: usize) -> (r: bool)
    requires
        start <= end <= path@.len(),
    ensures
        r == is_named_segment(path@.subrange(start as int, end as int)),
{
    let ghost cur = path@.subrange(start as int, end as int);
    if end == start {
        false
    } else if end == start + 1 {
        let first = path.get_char(start);
        assert(cur =~= seq![first]);
        assert(seq![first][0] == first);
        assert(seq!['.'][0] == '.');
        first != '.'
    } else {
        assert(seq!['.'].len() == 1);
        true
    }
}

/// The components that `path`, with its leading slashes trimmed, adds when it is
/// joined onto a directory (`dir.join(path.trim_start_matches('/'))`).
pub fn relative_components(path: &str) -> (r: Vec<String>)
    ensures
        r.deep_view() == path_segments(path@),
{
    let n = path.unicode_len();
    let mut r: Vec<String> = Vec::new();
    let mut start: usize = 0;
    let mut i: usize = 0;
    let ghost mut done: Seq<Seq<char>> = seq![];
    assert(path@.take(0) =~= seq![]);
    assert(path@.subrange(0, 0) =~= seq![]);
    assert(split_on_slash(seq![]) == done.push(seq![]));
    while i < n
        invariant
            n == path@.len(),
            start <= i <= n,
            split_on_slash(path@.take(i as int)) == done.push(path@.subrange(start as int, i as int)),
            r.deep_view() == keep_named(done),
        decreases n - i,
    {
        let c = path.get_char(i);
        let ghost cur = path@.subrange(start as int, i as int);
        assert(path@.take(i + 1).drop_last() =~= path@.take(i as int));
        assert(path@.take(i + 1).last() == c);
        if c == '/' {
            let named = is_component(path, start, i);
            if named {
                let piece = String::from_str(path.substring_char(start, i));
                let ghost old_r = r.deep_view();
                r.push(piece);
                assert(r.deep_view() =~= old_r.push(cur));
            }
            proof {
                lemma_keep_named_push(done, cur);
                done = done.push(cur);
            }
            start = i + 1;
            assert(path@.subrange(start as int, (i + 1) as int) =~= seq![]);
        } else {
            assert(path@.subrange(start as int, (i + 1) as int) =~= cur.push(c));
            assert(done.push(cur).update(done.len() as int, cur.push(c)) =~= done.push(cur.push(c)));
        }
        i += 1;
    }
    let ghost cur = path@.subrange(start as int, n as int);
    assert(path@.take(n as int) =~= path@);
    let named = is_component(path, start, n);
    if named {
        let piece = String::from_str(path.substring_char(start, n));
        let ghost old_r = r.deep_view();
        r.push(piece);
        assert(r.deep_view() =~= old_r.push(cur));
    }
    proof {
        lemma_keep_named_push(done, cur);
    }
    r
}

} // verus!

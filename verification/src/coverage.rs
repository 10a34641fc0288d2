//! Which policy covers a path: policies resolved against the base directory,
//! ordered from the most to the least specific, and matched against paths.

use vstd::prelude::*;
use crate::models::{BackupPolicy, BackupPolicyView, PolicyKind};
use crate::paths::{copy_path, path_segments, path_starts_with, relative_components, same_path, starts_with};

verus! {

/// A policy whose path has been resolved against the base directory into the
/// components of the directory or file it names.
#[derive(Debug)]
pub struct NormalizedPolicy {
    pub id: u128,
    pub kind: PolicyKind,
    pub recursive: bool,
    pub prefix: Vec<String>,
}

/// The mathematical value of a resolved policy.
pub struct NormalizedView {
    pub id: u128,
    pub kind: PolicyKind,
    pub recursive: bool,
    pub prefix: Seq<Seq<char>>,
}

impl View for NormalizedPolicy {
    type V = NormalizedView;

    open spec fn view(&self) -> NormalizedView {
        NormalizedView {
            id: self.id,
            kind: self.kind,
            recursive: self.recursive,
            prefix: self.prefix.deep_view(),
        }
    }
}

impl DeepView for NormalizedPolicy {
    type V = NormalizedView;

    open spec fn deep_view(&self) -> NormalizedView {
        self@
    }
}

/// A policy resolved against the base directory `base`: its path, leading slashes
/// trimmed, joined onto `base`.
pub open spec fn normalize(p: BackupPolicyView, base: Seq<Seq<char>>) -> NormalizedView {
    NormalizedView {
        id: p.id,
        kind: p.kind,
        recursive: p.recursive,
        prefix: base + path_segments(p.path),
    }
}

/// A policy resolved against a base directory names the base directory followed by
/// every component of its own path, none left out and none added; its identifier,
/// kind and recursion are the policy's own.
pub proof fn lemma_resolution_keeps_every_component(p: BackupPolicyView, base: Seq<Seq<char>>)
    ensures
        normalize(p, base).prefix.len() == base.len() + path_segments(p.path).len(),
        normalize(p, base).prefix.take(base.len() as int) == base,
        normalize(p, base).prefix.skip(base.len() as int) == path_segments(p.path),
        path_segments(p.path).len() > 0 ==> normalize(p, base).prefix.last() == path_segments(
            p.path,
        ).last(),
        normalize(p, base).id == p.id,
        normalize(p, base).kind == p.kind,
        normalize(p, base).recursive == p.recursive,
{
    let q = normalize(p, base).prefix;
    assert(q.take(base.len() as int) =~= base);
    assert(q.skip(base.len() as int) =~= path_segments(p.path));
}

/// Whether `order` lists each of `0..n` exactly once.
pub open spec fn is_permutation(order: Seq<int>, n: nat) -> bool {
    &&& order.len() == n
    &&& forall|k: int| 0 <= k < n ==> 0 <= #[trigger] order[k] < n
    &&& forall|k: int, l: int| 0 <= k < l < n ==> #[trigger] order[k] != #[trigger] order[l]
}

/// Whether `ns`, whose entries came from the positions `order`, runs from the deepest
/// prefix to the shallowest, entries of equal depth keeping their first order.
pub open spec fn depth_ordered(ns: Seq<NormalizedView>, order: Seq<int>) -> bool {
    forall|k: int, l: int|
        0 <= k < l < ns.len() ==> (#[trigger] ns[k]).prefix.len() > (#[trigger] ns[l]).prefix.len()
            || (ns[k].prefix.len() == ns[l].prefix.len() && order[k] < order[l])
}

/// Whether `ns` is `policies` resolved against `base` and stably sorted by depth,
/// the deepest first.
pub open spec fn sorted_resolution(
    ns: Seq<NormalizedView>,
    policies: Seq<BackupPolicy>,
    base: Seq<Seq<char>>,
) -> bool {
    exists|order: Seq<int>|
        {
            &&& is_permutation(order, policies.len())
            &&& ns.len() == policies.len()
            &&& depth_ordered(ns, order)
            &&& forall|k: int|
                0 <= k < ns.len() ==> #[trigger] ns[k] == normalize(policies[order[k]]@, base)
        }
}

fn resolve(p: &BackupPolicy, base_dir: &Vec<String>) -> (r: NormalizedPolicy)
    ensures
        r@ == normalize(p@, base_dir.deep_view()),
{
    let mut prefix = copy_path(base_dir);
    let mut rest = relative_components(p.path.as_str());
    let ghost before = prefix.deep_view();
    let ghost added = rest.deep_view();
    prefix.append(&mut rest);
    assert(prefix.deep_view() =~= before + added);
    NormalizedPolicy { id: p.id, kind: p.kind, recursive: p.recursive, prefix }
}

/// Resolves every policy against `base_dir` and orders the results from the deepest
/// prefix to the shallowest; policies of equal depth keep their order (a stable sort).
pub fn normalize_and_sort_policies(policies: Vec<BackupPolicy>, base_dir: &Vec<String>) -> (r: Vec<
    NormalizedPolicy,
>)
    ensures
        sorted_resolution(r.deep_view(), policies@, base_dir.deep_view()),
{
    let n = policies.len();
    let ghost base = base_dir.deep_view();
    let mut r: Vec<NormalizedPolicy> = Vec::new();
    let ghost mut order: Seq<int> = seq![];
    let mut i: usize = 0;
    while i < n
        invariant
            n == policies.len(),
            i <= n,
            base == base_dir.deep_view(),
            r.len() == i,
            order.len() == i,
            forall|k: int| 0 <= k < i ==> 0 <= #[trigger] order[k] < i,
            forall|k: int, l: int| 0 <= k < l < i ==> #[trigger] order[k] != #[trigger] order[l],
            depth_ordered(r.deep_view(), order),
            forall|k: int|
                0 <= k < i ==> #[trigger] r.deep_view()[k] == normalize(policies@[order[k]]@, base),
        decreases n - i,
    {
        let np = resolve(&policies[i], base_dir);
        let d = np.prefix.len();
        let mut pos: usize = 0;
        while pos < r.len() && r[pos].prefix.len() >= d
            invariant
                pos <= r.len(),
                forall|k: int| 0 <= k < pos ==> (#[trigger] r.deep_view()[k]).prefix.len() >= d,
            decreases r.len() - pos,
        {
            assert(r.deep_view()[pos as int].prefix.len() == r[pos as int].prefix.len());
            pos += 1;
        }
        if pos < r.len() {
            assert(r.deep_view()[pos as int].prefix.len() < d);
        }
        let ghost old_ns = r.deep_view();
        let ghost old_order = order;
        r.insert(pos, np);
        proof {
            order = order.insert(pos as int, i as int);
            let ns = r.deep_view();
            assert(ns =~= old_ns.insert(pos as int, np@));
            assert forall|k: int, l: int| 0 <= k < l < ns.len() implies (#[trigger] ns[k]).prefix.len()
                > (#[trigger] ns[l]).prefix.len() || (ns[k].prefix.len() == ns[l].prefix.len()
                && order[k] < order[l]) by {
                if l < pos {
                    assert(ns[k] == old_ns[k] && ns[l] == old_ns[l]);
                } else if l == pos {
                    assert(ns[k] == old_ns[k]);
                } else if k == pos {
                    assert(ns[l] == old_ns[l - 1]);
                    if pos < old_ns.len() {
                        assert(old_ns[pos as int].prefix.len() < d);
                        if l - 1 > pos {
                            assert(old_ns[pos as int].prefix.len() >= old_ns[l - 1].prefix.len());
                        }
                    }
                } else if k < pos {
                    assert(ns[k] == old_ns[k] && ns[l] == old_ns[l - 1]);
                } else {
                    assert(ns[k] == old_ns[k - 1] && ns[l] == old_ns[l - 1]);
                }
            }
            assert forall|k: int| 0 <= k < i + 1 implies 0 <= #[trigger] order[k] < i + 1 by {
                if k < pos {
                    assert(order[k] == old_order[k]);
                } else if k > pos {
                    assert(order[k] == old_order[k - 1]);
                }
            }
            assert forall|k: int, l: int| 0 <= k < l < i + 1 implies #[trigger] order[k]
                != #[trigger] order[l] by {
                if k != pos && l != pos {
                    let k0 = if k < pos { k } else { k - 1 };
                    let l0 = if l < pos { l } else { l - 1 };
                    assert(order[k] == old_order[k0] && order[l] == old_order[l0]);
                } else if k == pos {
                    assert(order[l] == old_order[l - 1]);
                } else {
                    assert(order[k] == old_order[k]);
                }
            }
            assert forall|k: int| 0 <= k < i + 1 implies #[trigger] ns[k] == normalize(
                policies@[order[k]]@,
                base,
            ) by {
                if k < pos {
                    assert(ns[k] == old_ns[k] && order[k] == old_order[k]);
                } else if k > pos {
                    assert(ns[k] == old_ns[k - 1] && order[k] == old_order[k - 1]);
                }
            }
        }
        i += 1;
    }
    assert(is_permutation(order, policies@.len()));
    r
}


/// Whether a resolved policy governs `path`: a recursive one governs its prefix and
/// everything below it, any other one its prefix alone.
pub open spec fn applies(p: NormalizedView, path: Seq<Seq<char>>) -> bool {
    if p.recursive {
        path_starts_with(path, p.prefix)
    } else {
        path == p.prefix
    }
}

/// Whether position `i` holds the first policy of `ps` that governs `path`.
pub open spec fn is_first_applying(ps: Seq<NormalizedView>, path: Seq<Seq<char>>, i: int) -> bool {
    &&& 0 <= i < ps.len()
    &&& applies(ps[i], path)
    &&& forall|j: int| 0 <= j < i ==> !applies(#[trigger] ps[j], path)
}

/// The position of the first policy of `ps` that governs `path`, if any does.
pub open spec fn most_specific(ps: Seq<NormalizedView>, path: Seq<Seq<char>>) -> Option<int> {
    if exists|i: int| is_first_applying(ps, path, i) {
        Some(choose|i: int| is_first_applying(ps, path, i))
    } else {
        None
    }
}

/// A position as an integer.
pub open spec fn index_of(r: Option<usize>) -> Option<int> {
    match r {
        Some(i) => Some(i as int),
        None => None,
    }
}

pub(crate) proof fn lemma_first_applying_unique(ps: Seq<NormalizedView>, path: Seq<Seq<char>>, i: int, j: int)
    requires
        is_first_applying(ps, path, i),
        is_first_applying(ps, path, j),
    ensures
        i == j,
{
    if i < j {
        assert(!applies(ps[i], path));
    } else if j < i {
        assert(!applies(ps[j], path));
    }
}

fn policy_applies(p: &NormalizedPolicy, path: &Vec<String>) -> (r: bool)
    ensures
        r == applies(p@, path.deep_view()),
{
    if p.recursive {
        starts_with(path, &p.prefix)
    } else {
        same_path(path, &p.prefix)
    }
}

/// The first policy, in the given order, that governs `path`. Over policies ordered
/// by `normalize_and_sort_policies` this is the most specific one.
pub fn find_most_specific_policy(path: &Vec<String>, policies: &Vec<NormalizedPolicy>) -> (r: Option<
    usize,
>)
    ensures
        index_of(r) == most_specific(policies.deep_view(), path.deep_view()),
        match r {
            Some(i) => is_first_applying(policies.deep_view(), path.deep_view(), i as int),
            None => forall|j: int|
                0 <= j < policies.len() ==> !applies(#[trigger] policies.deep_view()[j], path.deep_view()),
        },
{
    let ghost ps = policies.deep_view();
    let ghost pv = path.deep_view();
    let mut i: usize = 0;
    while i < policies.len()
        invariant
            i <= policies.len(),
            ps == policies.deep_view(),
            pv == path.deep_view(),
            forall|j: int| 0 <= j < i ==> !applies(#[trigger] ps[j], pv),
        decreases policies.len() - i,
    {
        if policy_applies(&policies[i], path) {
            assert(ps[i as int] == policies[i as int]@);
            assert(is_first_applying(ps, pv, i as int));
            proof {
                let c = choose|c: int| is_first_applying(ps, pv, c);
                lemma_first_applying_unique(ps, pv, c, i as int);
            }
            return Some(i);
        }
        assert(ps[i as int] == policies[i as int]@);
        i += 1;
    }
    assert(!exists|c: int| is_first_applying(ps, pv, c));
    None
}

/// Whether a resolved policy could govern `path` or something below it: its prefix
/// lies at or below `path`, or it is recursive and its prefix lies above `path`.
pub open spec fn relevant(p: NormalizedView, path: Seq<Seq<char>>) -> bool {
    path_starts_with(p.prefix, path) || (p.recursive && path_starts_with(path, p.prefix))
}

/// The positions, in order, of the policies of `ps` that could govern `path` or
/// something below it.
pub open spec fn relevant_indices(ps: Seq<NormalizedView>, path: Seq<Seq<char>>) -> Seq<int>
    decreases ps.len(),
{
    if ps.len() == 0 {
        seq![]
    } else {
        let r = relevant_indices(ps.drop_last(), path);
        if relevant(ps.last(), path) {
            r.push(ps.len() - 1)
        } else {
            r
        }
    }
}

/// Returns all policies that could potentially apply to the path or its
/// subdirectories, as positions in `policies`. If this returns more than one policy,
/// then scanning has to descend, otherwise only the one policy can apply.
pub fn potential_relevant_policies(path: &Vec<String>, policies: &Vec<NormalizedPolicy>) -> (r: Vec<
    usize,
>)
    ensures
        r@.map_values(|x: usize| x as int) == relevant_indices(policies.deep_view(), path.deep_view()),
{
    let ghost ps = policies.deep_view();
    let ghost pv = path.deep_view();
    let mut r: Vec<usize> = Vec::new();
    let mut i: usize = 0;
    assert(ps.take(0) =~= seq![]);
    while i < policies.len()
        invariant
            i <= policies.len(),
            ps == policies.deep_view(),
            pv == path.deep_view(),
            r@.map_values(|x: usize| x as int) == relevant_indices(ps.take(i as int), pv),
        decreases policies.len() - i,
    {
        let p = &policies[i];
        assert(ps[i as int] == p@);
        assert(ps.take(i + 1).drop_last() =~= ps.take(i as int));
        assert(ps.take(i + 1).last() == p@);
        if starts_with(&p.prefix, path) || (p.recursive && starts_with(path, &p.prefix)) {
            let ghost before = r@;
            r.push(i);
            assert(r@.map_values(|x: usize| x as int) =~= before.map_values(|x: usize| x as int).push(
                i as int,
            ));
        }
        i += 1;
    }
    assert(ps.take(i as int) =~= ps);
    r
}

proof fn lemma_relevant_indices_contains(ps: Seq<NormalizedView>, path: Seq<Seq<char>>, j: int)
    requires
        0 <= j < ps.len(),
    ensures
        relevant_indices(ps, path).contains(j) <==> relevant(ps[j], path),
    decreases ps.len(),
{
    let r = relevant_indices(ps.drop_last(), path);
    lemma_relevant_indices_bounded(ps.drop_last(), path);
    if j < ps.len() - 1 {
        lemma_relevant_indices_contains(ps.drop_last(), path, j);
        assert(ps.drop_last()[j] == ps[j]);
        if relevant(ps.last(), path) {
            assert(r.push(ps.len() - 1).contains(j) <==> r.contains(j)) by {
                let rp = r.push(ps.len() - 1);
                if rp.contains(j) {
                    let k = choose|k: int| 0 <= k < rp.len() && rp[k] == j;
                    if k < r.len() {
                        assert(r[k] == j);
                    }
                }
                if r.contains(j) {
                    let k = choose|k: int| 0 <= k < r.len() && r[k] == j;
                    assert(r.push(ps.len() - 1)[k] == j);
                }
            }
        }
    } else {
        if relevant(ps.last(), path) {
            assert(r.push(ps.len() - 1)[r.len() as int] == j);
        } else {
            if r.contains(j) {
                let k = choose|k: int| 0 <= k < r.len() && r[k] == j;
                assert(r[k] < ps.len() - 1);
            }
        }
    }
}

proof fn lemma_relevant_indices_bounded(ps: Seq<NormalizedView>, path: Seq<Seq<char>>)
    ensures
        forall|k: int|
            0 <= k < relevant_indices(ps, path).len() ==> 0 <= #[trigger] relevant_indices(
                ps,
                path,
            )[k] < ps.len(),
    decreases ps.len(),
{
    if ps.len() > 0 {
        lemma_relevant_indices_bounded(ps.drop_last(), path);
        let r = relevant_indices(ps.drop_last(), path);
        let full = relevant_indices(ps, path);
        assert forall|k: int| 0 <= k < full.len() implies 0 <= #[trigger] full[k] < ps.len() by {
            if k < r.len() {
                assert(full[k] == r[k]);
            }
        }
    }
}

/// Every policy that governs `path` or anything below it is among the policies that
/// `potential_relevant_policies` returns for `path`. So when at most one is returned,
/// that one policy is the only one that can apply at or below `path`.
pub proof fn lemma_relevant_policies_cover_subtree(
    ps: Seq<NormalizedView>,
    path: Seq<Seq<char>>,
    below: Seq<Seq<char>>,
    j: int,
)
    requires
        0 <= j < ps.len(),
        path_starts_with(below, path),
        applies(ps[j], below),
    ensures
        relevant_indices(ps, path).contains(j),
        relevant_indices(ps, path).len() <= 1 ==> relevant_indices(ps, path) == seq![j],
{
    let p = ps[j].prefix;
    if ps[j].recursive {
        assert(path_starts_with(below, p));
        if p.len() <= path.len() {
            assert(path.take(p.len() as int) =~= below.take(p.len() as int));
        } else {
            assert(p.take(path.len() as int) =~= below.take(path.len() as int));
        }
    } else {
        assert(below == p);
    }
    lemma_relevant_indices_contains(ps, path, j);
    let r = relevant_indices(ps, path);
    if r.len() <= 1 {
        let k = choose|k: int| 0 <= k < r.len() && r[k] == j;
        assert(r =~= seq![j]);
    }
}

/// Among policies resolved and ordered by `normalize_and_sort_policies`, the chosen
/// policy for a path is a deepest one of those that govern it.
pub proof fn lemma_most_specific_is_deepest(
    ns: Seq<NormalizedView>,
    policies: Seq<BackupPolicy>,
    base: Seq<Seq<char>>,
    path: Seq<Seq<char>>,
)
    requires
        sorted_resolution(ns, policies, base),
    ensures
        most_specific(ns, path) matches Some(i) ==> forall|j: int|
            0 <= j < ns.len() && applies(#[trigger] ns[j], path) ==> ns[j].prefix.len()
                <= ns[i].prefix.len(),
{
    if let Some(i) = most_specific(ns, path) {
        let order = choose|order: Seq<int>|
            {
                &&& is_permutation(order, policies.len())
                &&& ns.len() == policies.len()
                &&& depth_ordered(ns, order)
                &&& forall|k: int|
                    0 <= k < ns.len() ==> #[trigger] ns[k] == normalize(policies[order[k]]@, base)
            };
        assert(is_first_applying(ns, path, i));
        assert forall|j: int| 0 <= j < ns.len() && applies(#[trigger] ns[j], path) implies ns[j].prefix.len()
            <= ns[i].prefix.len() by {
            if j < i {
                assert(!applies(ns[j], path));
            } else if j > i {
                assert(ns[i].prefix.len() > ns[j].prefix.len() || ns[i].prefix.len()
                    == ns[j].prefix.len());
            }
        }
    }
}

pub(crate) proof fn lemma_first_applying_exists(ns: Seq<NormalizedView>, path: Seq<Seq<char>>, e: int)
    requires
        0 <= e < ns.len(),
        applies(ns[e], path),
    ensures
        exists|i: int| is_first_applying(ns, path, i),
    decreases e,
{
    if exists|j: int| 0 <= j < e && applies(#[trigger] ns[j], path) {
        let j = choose|j: int| 0 <= j < e && applies(#[trigger] ns[j], path);
        lemma_first_applying_exists(ns, path, j);
    } else {
        assert(is_first_applying(ns, path, e));
    }
}

/// Among policies resolved and ordered by `normalize_and_sort_policies`, a policy set
/// on exactly a path decides for it: the chosen policy's prefix is the path itself.
pub proof fn lemma_exact_policy_decides(
    ns: Seq<NormalizedView>,
    policies: Seq<BackupPolicy>,
    base: Seq<Seq<char>>,
    path: Seq<Seq<char>>,
    e: int,
)
    requires
        sorted_resolution(ns, policies, base),
        0 <= e < ns.len(),
        ns[e].prefix == path,
    ensures
        most_specific(ns, path) matches Some(i) && ns[i].prefix == path,
{
    assert(path.take(path.len() as int) =~= path);
    assert(applies(ns[e], path));
    lemma_first_applying_exists(ns, path, e);
    let i = choose|i: int| is_first_applying(ns, path, i);
    lemma_most_specific_is_deepest(ns, policies, base, path);
    assert(ns[e].prefix.len() <= ns[i].prefix.len());
    if ns[i].recursive {
        assert(path_starts_with(path, ns[i].prefix));
        assert(ns[i].prefix =~= path.take(ns[i].prefix.len() as int));
        assert(ns[i].prefix =~= path);
    }
}

} // verus!

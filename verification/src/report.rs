//! The missing-policy report: a scan of the base directory that records the paths
//! no policy covers and counts, per backup policy, the files it covers.
//!
//! The scan itself reads directories; it hands each entry it meets to
//! [`ReportBuilder::visit_entry`], which decides what the entry means for the report
//! and whether the scan has to descend into it.

use vstd::prelude::*;
use std::collections::HashMap;
use crate::coverage::{
    applies, is_first_applying, lemma_first_applying_exists, lemma_first_applying_unique,
    lemma_relevant_policies_cover_subtree, find_most_specific_policy, most_specific, normalize_and_sort_policies,
    potential_relevant_policies, relevant_indices, sorted_resolution, NormalizedPolicy,
    NormalizedView,
};
use crate::models::{BackupPolicy, PolicyKind, Timestamp};
use crate::paths::{child_path, path_starts_with};

verus! {

broadcast use vstd::std_specs::hash::group_hash_axioms;

/// What a directory entry is, as its file type tells without following links.
#[derive(Clone, Copy, Debug, PartialEq, Eq, Structural)]
pub enum EntryKind {
    File,
    Dir,
    /// Neither a regular file nor a directory (a symbolic link, a socket, ...).
    Other,
}

/// What a directory entry means for the report.
#[derive(Clone, Copy, Debug, PartialEq, Eq, Structural)]
pub enum ScanStep {
    /// The path is covered by no policy: it is recorded as missing.
    Missing,
    /// The file is covered by the backup policy with this identifier: it is counted.
    Hit(u128),
    /// The directory holds paths that other policies decide: the scan descends into it.
    Descend,
    /// Nothing to record or to descend into.
    Skip,
}

/// What the entry at `path` of kind `kind` means, given the resolved policies `ps`
/// ordered from the most to the least specific.
pub open spec fn scan_step(ps: Seq<NormalizedView>, path: Seq<Seq<char>>, kind: EntryKind) -> ScanStep {
    let many = relevant_indices(ps, path).len() > 1;
    let decided = most_specific(ps, path);
    if decided is Some && ps[decided->0].kind == PolicyKind::Exclude {
        ScanStep::Skip
    } else if decided is Some && ps[decided->0].kind == PolicyKind::Backup {
        let p = ps[decided->0];
        match kind {
            EntryKind::File => ScanStep::Hit(p.id),
            EntryKind::Dir => if many || !p.recursive {
                ScanStep::Descend
            } else {
                ScanStep::Skip
            },
            EntryKind::Other => ScanStep::Skip,
        }
    } else {
        match kind {
            EntryKind::File => ScanStep::Missing,
            EntryKind::Dir => if many {
                ScanStep::Descend
            } else {
                ScanStep::Missing
            },
            EntryKind::Other => ScanStep::Skip,
        }
    }
}

/// When a scan skips a directory that a backup policy decides, that same policy
/// decides every path below it: nothing uncovered is passed over.
pub proof fn lemma_skipped_backup_dir_decides_subtree(
    ps: Seq<NormalizedView>,
    dir: Seq<Seq<char>>,
    below: Seq<Seq<char>>,
)
    requires
        scan_step(ps, dir, EntryKind::Dir) == ScanStep::Skip,
        most_specific(ps, dir) matches Some(i) && ps[i].kind == PolicyKind::Backup,
        path_starts_with(below, dir),
    ensures
        most_specific(ps, below) == most_specific(ps, dir),
{
    let i = most_specific(ps, dir)->0;
    assert(exists|c: int| is_first_applying(ps, dir, c));
    assert(is_first_applying(ps, dir, i));
    let p = ps[i];
    assert(p.recursive);
    assert(relevant_indices(ps, dir).len() <= 1);
    assert(path_starts_with(dir, dir)) by {
        assert(dir.take(dir.len() as int) =~= dir);
    }
    assert(applies(p, below)) by {
        assert(below.take(p.prefix.len() as int) =~= dir.take(p.prefix.len() as int));
    }
    lemma_first_applying_exists(ps, below, i);
    let k = choose|c: int| is_first_applying(ps, below, c);
    lemma_relevant_policies_cover_subtree(ps, dir, below, k);
    lemma_relevant_policies_cover_subtree(ps, dir, dir, i);
    assert(seq![k][0] == k && seq![i][0] == i);
    assert(k == i);
    let c = choose|c: int| is_first_applying(ps, below, c);
    lemma_first_applying_unique(ps, below, c, i);
}

/// What a scan does with each entry, by the policy that decides it:
/// - an entry that no policy decides, or that a null policy decides, is never passed
///   over: a file is recorded as missing, and a directory is recorded as missing
///   unless more than one policy could govern it or something below it, in which
///   case the scan descends into it;
/// - a file that a backup policy decides is counted for that policy, and a directory
///   it decides is descended into exactly when more than one policy could govern it
///   or something below it, or the policy is not recursive;
/// - an entry that an exclude policy decides, and an entry that is neither a file nor
///   a directory, is passed over.
pub proof fn lemma_scan_step_by_deciding_policy(
    ps: Seq<NormalizedView>,
    path: Seq<Seq<char>>,
    kind: EntryKind,
)
    ensures
        ({
            let d = most_specific(ps, path);
            let many = relevant_indices(ps, path).len() > 1;
            let step = scan_step(ps, path, kind);
            &&& kind == EntryKind::Other ==> step == ScanStep::Skip
            &&& (d is None || ps[d->0].kind == PolicyKind::Null) ==> {
                &&& kind == EntryKind::File ==> step == ScanStep::Missing
                &&& kind == EntryKind::Dir ==> (step == ScanStep::Descend <==> many)
                &&& kind == EntryKind::Dir ==> (step == ScanStep::Missing <==> !many)
                &&& kind != EntryKind::Other ==> step != ScanStep::Skip
            }
            &&& (d is Some && ps[d->0].kind == PolicyKind::Exclude) ==> step == ScanStep::Skip
            &&& (d is Some && ps[d->0].kind == PolicyKind::Backup) ==> {
                &&& kind == EntryKind::File ==> step == ScanStep::Hit(ps[d->0].id)
                &&& kind == EntryKind::Dir ==> (step == ScanStep::Descend <==> (many
                    || !ps[d->0].recursive))
                &&& kind == EntryKind::Dir ==> (step == ScanStep::Skip <==> !(many
                    || !ps[d->0].recursive))
                &&& step != ScanStep::Missing
            }
        }),
{
}

/// Decides what the entry at `path` of kind `kind` means for the report.
pub fn classify_entry(path: &Vec<String>, kind: EntryKind, policies: &Vec<NormalizedPolicy>) -> (r:
    ScanStep)
    ensures
        r == scan_step(policies.deep_view(), path.deep_view(), kind),
{
    let found = find_most_specific_policy(path, policies);
    let relevant = potential_relevant_policies(path, policies);
    assert(relevant@.map_values(|x: usize| x as int).len() == relevant@.len());
    let many = relevant.len() > 1;
    match found {
        Some(i) => {
            let p = &policies[i];
            assert(policies.deep_view()[i as int] == p@);
            match p.kind {
                PolicyKind::Exclude => ScanStep::Skip,
                PolicyKind::Backup => match kind {
                    EntryKind::File => ScanStep::Hit(p.id),
                    EntryKind::Dir => if many || !p.recursive {
                        ScanStep::Descend
                    } else {
                        ScanStep::Skip
                    },
                    EntryKind::Other => ScanStep::Skip,
                },
                PolicyKind::Null => match kind {
                    EntryKind::File => ScanStep::Missing,
                    EntryKind::Dir => if many {
                        ScanStep::Descend
                    } else {
                        ScanStep::Missing
                    },
                    EntryKind::Other => ScanStep::Skip,
                },
            }
        },
        None => match kind {
            EntryKind::File => ScanStep::Missing,
            EntryKind::Dir => if many {
                ScanStep::Descend
            } else {
                ScanStep::Missing
            },
            EntryKind::Other => ScanStep::Skip,
        },
    }
}

/// The paths that no policy covers, and how many files each backup policy covers.
#[derive(Debug)]
pub struct MissingPolicyReport {
    pub missing_paths: Vec<Vec<String>>,
    pub policy_hits: HashMap<u128, u64>,
}

/// The mathematical value of a report.
pub struct ReportView {
    pub missing: Seq<Seq<Seq<char>>>,
    pub hits: Map<u128, u64>,
}

impl View for MissingPolicyReport {
    type V = ReportView;

    open spec fn view(&self) -> ReportView {
        ReportView { missing: self.missing_paths.deep_view(), hits: self.policy_hits@ }
    }
}

/// Whether a report agrees with the policies `ps`: every missing path is decided by
/// no policy or by a null one, and every counted identifier is that of a backup policy.
pub open spec fn report_sound(r: ReportView, ps: Seq<NormalizedView>) -> bool {
    &&& forall|m: int|
        0 <= m < r.missing.len() ==> {
            let d = most_specific(ps, #[trigger] r.missing[m]);
            d is None || ps[d->0].kind == PolicyKind::Null
        }
    &&& forall|id: u128|
        #[trigger] r.hits.contains_key(id) ==> r.hits[id] >= 1 && exists|i: int|
            0 <= i < ps.len() && (#[trigger] ps[i]).kind == PolicyKind::Backup && ps[i].id == id
}

/// One directory entry that a scan took in: its path and what kind of entry it is.
pub type Visit = (Seq<Seq<char>>, EntryKind);

struct ScanProgress {
    report: MissingPolicyReport,
    counted: u64,
    visited: Ghost<Seq<Visit>>,
}

/// A scan in progress: the resolved policies, the report so far, and (as ghost
/// state) the entries taken in so far.
pub struct ReportBuilder {
    policies: Vec<NormalizedPolicy>,
    progress: ScanProgress,
}

/// The mathematical value of a scan in progress: the resolved policies, the report
/// so far, the number of files counted so far, and the entries taken in so far.
pub struct ScanView {
    pub policies: Seq<NormalizedView>,
    pub report: ReportView,
    pub counted: u64,
    pub visited: Seq<Visit>,
}

impl View for ReportBuilder {
    type V = ScanView;

    closed spec fn view(&self) -> ScanView {
        ScanView {
            policies: self.policies.deep_view(),
            report: self.progress.report@,
            counted: self.progress.counted,
            visited: self.progress.visited@,
        }
    }
}

/// The paths, in order, of the visited entries that the policies `ps` find uncovered.
pub open spec fn missing_of(ps: Seq<NormalizedView>, visits: Seq<Visit>) -> Seq<Seq<Seq<char>>>
    decreases visits.len(),
{
    if visits.len() == 0 {
        seq![]
    } else {
        let r = missing_of(ps, visits.drop_last());
        let v = visits.last();
        if scan_step(ps, v.0, v.1) == ScanStep::Missing {
            r.push(v.0)
        } else {
            r
        }
    }
}

/// How many of the visited entries are files that the backup policy `id` covers.
pub open spec fn hits_of(ps: Seq<NormalizedView>, visits: Seq<Visit>, id: u128) -> nat
    decreases visits.len(),
{
    if visits.len() == 0 {
        0
    } else {
        let v = visits.last();
        hits_of(ps, visits.drop_last(), id) + if scan_step(ps, v.0, v.1) == ScanStep::Hit(id) {
            1nat
        } else {
            0nat
        }
    }
}

/// How many of the visited entries are files that some backup policy covers.
pub open spec fn hit_total(ps: Seq<NormalizedView>, visits: Seq<Visit>) -> nat
    decreases visits.len(),
{
    if visits.len() == 0 {
        0
    } else {
        let v = visits.last();
        hit_total(ps, visits.drop_last()) + if scan_step(ps, v.0, v.1) is Hit {
            1nat
        } else {
            0nat
        }
    }
}

/// Whether the report `r` is exactly what the visited entries give under `ps`: the
/// uncovered ones, in the order visited, and for each backup policy the number of
/// visited files it covers (a policy that covers none has no count).
pub open spec fn report_of_visits(r: ReportView, ps: Seq<NormalizedView>, visits: Seq<Visit>) -> bool {
    &&& r.missing == missing_of(ps, visits)
    &&& forall|id: u128| #[trigger] r.hits.contains_key(id) ==> r.hits[id] == hits_of(ps, visits, id)
    &&& forall|id: u128| #[trigger] hits_of(ps, visits, id) > 0 ==> r.hits.contains_key(id)
}

/// A scan records every entry it takes in that no backup or exclude policy decides:
/// a file that no policy or a null policy decides, and such a directory that no
/// other policy could govern below it, are among the missing paths, wherever they
/// came in the scan.
pub proof fn lemma_uncovered_visits_are_missing(ps: Seq<NormalizedView>, visits: Seq<Visit>, j: int)
    requires
        0 <= j < visits.len(),
        ({
            let d = most_specific(ps, visits[j].0);
            d is None || ps[d->0].kind == PolicyKind::Null
        }),
        visits[j].1 == EntryKind::File || (visits[j].1 == EntryKind::Dir && relevant_indices(
            ps,
            visits[j].0,
        ).len() <= 1),
    ensures
        missing_of(ps, visits).contains(visits[j].0),
    decreases visits.len(),
{
    lemma_scan_step_by_deciding_policy(ps, visits[j].0, visits[j].1);
    let rest = visits.drop_last();
    let r = missing_of(ps, rest);
    let v = visits.last();
    if j == visits.len() - 1 {
        assert(v == visits[j]);
        assert(scan_step(ps, v.0, v.1) == ScanStep::Missing);
        assert(missing_of(ps, visits) == r.push(v.0));
        assert(r.push(v.0)[r.len() as int] == v.0);
    } else {
        assert(rest[j] == visits[j]);
        lemma_uncovered_visits_are_missing(ps, rest, j);
        let k = choose|k: int| 0 <= k < r.len() && r[k] == visits[j].0;
        if scan_step(ps, v.0, v.1) == ScanStep::Missing {
            assert(missing_of(ps, visits) == r.push(v.0));
            assert(r.push(v.0)[k] == visits[j].0);
        } else {
            assert(missing_of(ps, visits) == r);
        }
    }
}

/// The count of the backup policy `id` after one more covered file.
pub open spec fn bump(hits: Map<u128, u64>, id: u128) -> Map<u128, u64> {
    hits.insert(
        id,
        if hits.contains_key(id) {
            (hits[id] + 1) as u64
        } else {
            1
        },
    )
}

/// Whether every count of a scan is at most the number of files counted so far.
pub open spec fn counts_bounded(v: ScanView) -> bool {
    forall|id: u128| #[trigger] v.report.hits.contains_key(id) ==> v.report.hits[id] <= v.counted
}

/// Whether the report `after` only adds to the report `before`: the missing paths of
/// `before` come first in `after`, and every count of `before` is still there and no
/// smaller.
pub open spec fn report_extends(before: ReportView, after: ReportView) -> bool {
    &&& before.missing.len() <= after.missing.len()
    &&& after.missing.take(before.missing.len() as int) == before.missing
    &&& forall|id: u128| #[trigger]
        before.hits.contains_key(id) ==> after.hits.contains_key(id) && after.hits[id]
            >= before.hits[id]
}

/// A scan only adds to its report: what one visit keeps, a sequence of visits keeps.
pub proof fn lemma_report_extends_transitive(a: ReportView, b: ReportView, c: ReportView)
    requires
        report_extends(a, b),
        report_extends(b, c),
    ensures
        report_extends(a, c),
{
    assert(c.missing.take(a.missing.len() as int) =~= c.missing.take(b.missing.len() as int).take(
        a.missing.len() as int,
    ));
    assert forall|id: u128| #[trigger] a.hits.contains_key(id) implies c.hits.contains_key(id)
        && c.hits[id] >= a.hits[id] by {
        assert(b.hits.contains_key(id));
    }
}

impl ReportBuilder {
    #[verifier::type_invariant]
    closed spec fn inv(&self) -> bool {
        let ps = self.policies.deep_view();
        let g = &self.progress;
        &&& report_sound(g.report@, ps)
        &&& report_of_visits(g.report@, ps, g.visited@)
        &&& g.counted == hit_total(ps, g.visited@)
        &&& forall|id: u128| #[trigger]
            g.report.policy_hits@.contains_key(id) ==> g.report.policy_hits@[id] <= g.counted
    }

    /// Starts a scan of `base_dir` under `policies`: the policies are resolved
    /// against `base_dir` and ordered from the most to the least specific.
    pub fn new(policies: Vec<BackupPolicy>, base_dir: &Vec<String>) -> (r: ReportBuilder)
        ensures
            sorted_resolution(r@.policies, policies@, base_dir.deep_view()),
            r@.report.missing == Seq::<Seq<Seq<char>>>::empty(),
            r@.report.hits == Map::<u128, u64>::empty(),
            r@.counted == 0,
            r@.visited == Seq::<Visit>::empty(),
            counts_bounded(r@),
    {
        let policies = normalize_and_sort_policies(policies, base_dir);
        let progress = ScanProgress::empty();
        ReportBuilder { policies, progress }
    }

    /// The number of files counted so far.
    pub fn files_counted(&self) -> (r: u64)
        ensures
            r == self@.counted,
    {
        self.progress.counted
    }

    /// Takes in the entry `name` of the directory `dir`: records it as missing,
    /// counts it for its backup policy, or does nothing, as [`scan_step`] decides.
    /// Returns the entry's path when the scan has to descend into it.
    pub fn visit_entry(&mut self, dir: &Vec<String>, name: String, kind: EntryKind) -> (r: Option<
        Vec<String>,
    >)
        requires
            old(self)@.counted < u64::MAX,
        ensures
            final(self)@.policies == old(self)@.policies,
            ({
                let path = dir.deep_view().push(name@);
                let step = scan_step(old(self)@.policies, path, kind);
                &&& (r is Some <==> step == ScanStep::Descend)
                &&& (r matches Some(c) ==> c.deep_view() == path)
                &&& final(self)@.visited == old(self)@.visited.push((path, kind))
                &&& final(self)@.report.missing == if step == ScanStep::Missing {
                    old(self)@.report.missing.push(path)
                } else {
                    old(self)@.report.missing
                }
                &&& final(self)@.report.hits == match step {
                    ScanStep::Hit(id) => bump(old(self)@.report.hits, id),
                    _ => old(self)@.report.hits,
                }
                &&& final(self)@.counted == match step {
                    ScanStep::Hit(_) => (old(self)@.counted + 1) as u64,
                    _ => old(self)@.counted,
                }
                &&& step matches ScanStep::Hit(id) ==> final(self)@.report.hits[id] == (if old(
                    self,
                )@.report.hits.contains_key(id) {
                    old(self)@.report.hits[id] as int
                } else {
                    0
                }) + 1
            }),
            counts_bounded(old(self)@),
            counts_bounded(final(self)@),
            report_extends(old(self)@.report, final(self)@.report),
            report_of_visits(final(self)@.report, final(self)@.policies, final(self)@.visited),
    {
        proof { use_type_invariant(&*self); }
        let ghost ps = self.policies.deep_view();
        let ghost start_report = self.progress.report@;
        let ghost start_visits = self.progress.visited@;
        assert(report_sound(start_report, ps));
        assert(report_of_visits(start_report, ps, start_visits));
        assert(start_report.missing.take(start_report.missing.len() as int) =~= start_report.missing);
        let path = child_path(dir, name);
        let step = classify_entry(&path, kind, &self.policies);
        let ghost pv = path.deep_view();
        let ghost visits = start_visits.push((pv, kind));
        assert(visits.drop_last() =~= start_visits);
        let mut progress = self.take_progress();
        assert(progress.report@ == start_report);
        assert(progress.visited@ == start_visits);
        assert(self.policies.deep_view() == ps);
        progress.visited = Ghost(visits);
        let result = match step {
            ScanStep::Missing => {
                let ghost old_missing = progress.report@.missing;
                progress.report.missing_paths.push(path);
                assert(progress.report@.missing =~= old_missing.push(pv));
                assert(progress.report@.missing.take(old_missing.len() as int) =~= old_missing);
                proof {
                    let rep = progress.report@;
                    assert forall|m: int| 0 <= m < rep.missing.len() implies {
                        let d = most_specific(ps, #[trigger] rep.missing[m]);
                        d is None || ps[d->0].kind == PolicyKind::Null
                    } by {
                        if m < old_missing.len() {
                            assert(rep.missing[m] == old_missing[m]);
                        }
                    }
                    assert forall|id: u128| #[trigger] rep.hits.contains_key(id) implies rep.hits[id]
                        == hits_of(ps, visits, id) by {
                        assert(hits_of(ps, visits, id) == hits_of(ps, start_visits, id));
                    }
                    assert forall|id: u128| #[trigger] hits_of(ps, visits, id) > 0 implies rep.hits.contains_key(
                        id,
                    ) by {
                        assert(hits_of(ps, visits, id) == hits_of(ps, start_visits, id));
                    }
                }
                None
            },
            ScanStep::Hit(id) => {
                proof {
                    let d = most_specific(ps, pv);
                    assert(d is Some && ps[d->0].kind == PolicyKind::Backup && ps[d->0].id == id);
                }
                let current: u64 = match progress.report.policy_hits.get(&id) {
                    Some(c) => *c,
                    None => 0,
                };
                let ghost old_hits = progress.report.policy_hits@;
                assert(old_hits == start_report.hits);
                assert(current == 0 || (old_hits.contains_key(id) && current == old_hits[id]));
                progress.counted = progress.counted + 1;
                progress.report.policy_hits.insert(id, current + 1);
                proof {
                    let d = most_specific(ps, pv);
                    let w = d->0;
                    let rep = progress.report@;
                    assert forall|k: u128| #[trigger] rep.hits.contains_key(k) implies rep.hits[k] >= 1
                        && exists|i: int|
                        0 <= i < ps.len() && (#[trigger] ps[i]).kind == PolicyKind::Backup && ps[i].id
                            == k by {
                        if k == id {
                            assert(0 <= w < ps.len() && ps[w].kind == PolicyKind::Backup && ps[w].id == k);
                        } else {
                            assert(old_hits.contains_key(k));
                            assert(start_report.hits.contains_key(k));
                            assert(start_report.hits[k] >= 1);
                        }
                    }
                    assert(rep.hits == bump(old_hits, id));
                    assert(rep.missing == start_report.missing);
                    assert forall|k: u128| #[trigger] rep.hits.contains_key(k) implies rep.hits[k]
                        == hits_of(ps, visits, k) by {
                        if k != id {
                            assert(old_hits.contains_key(k));
                        } else if !old_hits.contains_key(id) {
                            assert(hits_of(ps, start_visits, id) == 0);
                        }
                    }
                    assert forall|k: u128| #[trigger] hits_of(ps, visits, k) > 0 implies rep.hits.contains_key(
                        k,
                    ) by {
                        if k != id {
                            assert(hits_of(ps, start_visits, k) > 0);
                        }
                    }
                }
                None
            },
            ScanStep::Descend => {
                proof {
                    let rep = progress.report@;
                    assert forall|id: u128| #[trigger] rep.hits.contains_key(id) implies rep.hits[id]
                        == hits_of(ps, visits, id) by {
                        assert(hits_of(ps, visits, id) == hits_of(ps, start_visits, id));
                    }
                    assert forall|id: u128| #[trigger] hits_of(ps, visits, id) > 0 implies rep.hits.contains_key(
                        id,
                    ) by {
                        assert(hits_of(ps, visits, id) == hits_of(ps, start_visits, id));
                    }
                }
                Some(path)
            },
            ScanStep::Skip => {
                proof {
                    let rep = progress.report@;
                    assert forall|id: u128| #[trigger] rep.hits.contains_key(id) implies rep.hits[id]
                        == hits_of(ps, visits, id) by {
                        assert(hits_of(ps, visits, id) == hits_of(ps, start_visits, id));
                    }
                    assert forall|id: u128| #[trigger] hits_of(ps, visits, id) > 0 implies rep.hits.contains_key(
                        id,
                    ) by {
                        assert(hits_of(ps, visits, id) == hits_of(ps, start_visits, id));
                    }
                }
                None
            },
        };
        self.progress = progress;
        result
    }

    fn take_progress(&mut self) -> (r: ScanProgress)
        ensures
            r.report@ == old(self)@.report,
            r.counted == old(self)@.counted,
            r.visited@ == old(self)@.visited,
            final(self)@.policies == old(self)@.policies,
    {
        let mut r = ScanProgress::empty();
        std::mem::swap(&mut r, &mut self.progress);
        r
    }

    /// The report of the finished scan. It is exactly what the visited entries give
    /// (see [`report_of_visits`]), and it agrees with the policies: every missing path
    /// is decided by no policy or by a null one, and every counted identifier belongs
    /// to a backup policy.
    pub fn finish(self) -> (r: MissingPolicyReport)
        ensures
            r@ == self@.report,
            report_sound(r@, self@.policies),
            report_of_visits(r@, self@.policies, self@.visited),
    {
        proof { use_type_invariant(&self); }
        self.progress.report
    }
}

impl ScanProgress {
    fn empty() -> (r: ScanProgress)
        ensures
            r.report@.missing == Seq::<Seq<Seq<char>>>::empty(),
            r.report@.hits == Map::<u128, u64>::empty(),
            r.counted == 0,
            r.visited@ == Seq::<Visit>::empty(),
    {
        let report = MissingPolicyReport { missing_paths: Vec::new(), policy_hits: HashMap::new() };
        assert(report@.missing =~= Seq::<Seq<Seq<char>>>::empty());
        ScanProgress { report, counted: 0, visited: Ghost(Seq::empty()) }
    }
}

/// What the missing-policy worker shares with the web pages: the latest report and
/// when the latest run started and completed.
#[derive(Debug)]
pub struct MissingPolicyWorkerData {
    pub report: Option<MissingPolicyReport>,
    pub last_run_started: Option<Timestamp>,
    pub last_run_completed: Option<Timestamp>,
}

impl MissingPolicyWorkerData {
    /// No report and no run yet.
    pub fn new() -> (r: MissingPolicyWorkerData)
        ensures
            r.report is None,
            r.last_run_started is None,
            r.last_run_completed is None,
    {
        MissingPolicyWorkerData { report: None, last_run_started: None, last_run_completed: None }
    }

    /// Notes that a run started at `now`.
    pub fn record_run_started(&mut self, now: Timestamp)
        ensures
            final(self).last_run_started == Some(now),
            final(self).last_run_completed == old(self).last_run_completed,
            final(self).report == old(self).report,
    {
        self.last_run_started = Some(now);
    }

    /// Notes that a run completed at `now` with `report`.
    pub fn record_run_completed(&mut self, report: MissingPolicyReport, now: Timestamp)
        ensures
            final(self).report == Some(report),
            final(self).last_run_completed == Some(now),
            final(self).last_run_started == old(self).last_run_started,
    {
        self.report = Some(report);
        self.last_run_completed = Some(now);
    }
}

} // verus!

//! The proposal builder: turns a list of candidate paths and an ordered
//! pattern list into a deterministic rename plan, grouped by parent
//! directory, together with the list of candidates that were not found.

use vstd::prelude::*;

use crate::pattern::Pattern;
use crate::pattern::PatternView;
use crate::pattern::pattern_views;
use crate::pattern::spec_apply_patterns;
use crate::pattern::apply_patterns;

verus! {

/// An input path considered for renaming, together with whether it existed on
/// the file system when the proposal was requested.  Existence is checked by
/// the caller: the library itself never touches the file system.
pub struct Candidate {
    pub path: String,
    pub exists: bool,
}

/// What a [`Candidate`] holds, mathematically.
pub ghost struct CandidateView {
    pub path: Seq<char>,
    pub exists: bool,
}

impl View for Candidate {
    type V = CandidateView;

    open spec fn view(&self) -> CandidateView {
        CandidateView { path: self.path@, exists: self.exists }
    }
}

/// The views of a sequence of candidates.
pub open spec fn candidate_views(cs: Seq<Candidate>) -> Seq<CandidateView> {
    cs.map_values(|c: Candidate| c@)
}

/// The views of a sequence of strings.
pub open spec fn string_views(ss: Seq<String>) -> Seq<Seq<char>> {
    ss.map_values(|s: String| s@)
}

/// A proposed rename of one file: two bare file names, no directory
/// component, scoped to one parent directory.  `source == destination`
/// signals that no pattern matched; such a no-op is surfaced, never applied.
pub struct Rename {
    pub source: String,
    pub destination: String,
}

/// What a [`Rename`] holds, mathematically.
pub ghost struct RenameView {
    pub source: Seq<char>,
    pub destination: Seq<char>,
}

impl View for Rename {
    type V = RenameView;

    open spec fn view(&self) -> RenameView {
        RenameView { source: self.source@, destination: self.destination@ }
    }
}

impl Rename {
    /// Whether this rename is a no-op: no pattern matched, so the source and
    /// destination names are identical.
    pub fn is_noop(&self) -> (r: bool)
        ensures
            r == (self@.source == self@.destination),
    {
        self.source == self.destination
    }
}

/// The renames proposed for the files under one parent directory, in the
/// order their candidates were supplied.
pub struct DirGroup {
    pub parent: String,
    pub renames: Vec<Rename>,
}

/// What a [`DirGroup`] holds, mathematically.
pub ghost struct DirGroupView {
    pub parent: Seq<char>,
    pub renames: Seq<RenameView>,
}

impl View for DirGroup {
    type V = DirGroupView;

    open spec fn view(&self) -> DirGroupView {
        DirGroupView {
            parent: self.parent@,
            renames: self.renames@.map_values(|r: Rename| r@),
        }
    }
}

/// The complete rename plan of one invocation: renames grouped by parent
/// directory.  Directories appear in order of first use; the renames within
/// one directory follow the order the candidates were supplied.
pub struct Proposal {
    pub groups: Vec<DirGroup>,
}

impl View for Proposal {
    type V = Seq<DirGroupView>;

    open spec fn view(&self) -> Seq<DirGroupView> {
        self.groups@.map_values(|g: DirGroup| g@)
    }
}

impl Proposal {
    /// No two groups name the same parent directory.
    pub open spec fn wf(&self) -> bool {
        spec_distinct_parents(self@)
    }
}

/// The index after the last `/` of `p`: everything before it is the parent
/// directory, everything after it the bare file name.
pub open spec fn spec_split_point(p: Seq<char>) -> int
    decreases p.len(),
{
    if p.len() == 0 {
        0
    } else if p[p.len() - 1] == '/' {
        p.len() as int
    } else {
        spec_split_point(p.drop_last())
    }
}

/// The parent directory of path `p`, trailing separator included.
pub open spec fn spec_parent(p: Seq<char>) -> Seq<char> {
    p.take(spec_split_point(p))
}

/// The bare file name of path `p`: what follows its last `/`.
pub open spec fn spec_file_name(p: Seq<char>) -> Seq<char> {
    p.skip(spec_split_point(p))
}

/// The split point is the unique cut `k` with a separator just before it and
/// none at or after it.
proof fn lemma_split_point_characterization(p: Seq<char>, k: int)
    requires
        0 <= k <= p.len(),
        k == 0 || p[k - 1] == '/',
        forall|j: int| k <= j < p.len() ==> p[j] != '/',
    ensures
        spec_split_point(p) == k,
    decreases p.len(),
{
    if p.len() == 0 {
    } else if p[p.len() - 1] == '/' {
        assert(k == p.len());
    } else {
        assert(k < p.len());
        assert(forall|j: int| k <= j < p.len() - 1 ==> p.drop_last()[j] == p[j]);
        lemma_split_point_characterization(p.drop_last(), k);
    }
}

/// Splits `path` at its last `/` into the parent directory (separator
/// included) and the bare file name.
pub fn split_path(path: &String) -> (r: (String, String))
    ensures
        r.0@ == spec_parent(path@),
        r.1@ == spec_file_name(path@),
{
    let s = path.as_str();
    let n = s.unicode_len();
    let mut k: usize = n;
    while k > 0 && s.get_char(k - 1) != '/'
        invariant
            0 <= k <= n,
            n == path@.len(),
            s@ == path@,
            forall|j: int| k <= j < n ==> path@[j] != '/',
        decreases k,
    {
        k = k - 1;
    }
    proof {
        lemma_split_point_characterization(path@, k as int);
    }
    let parent = String::from_str(s.substring_char(0, k));
    let name = String::from_str(s.substring_char(k, n));
    (parent, name)
}

/// The rename computed for one existing candidate path: its bare file name,
/// and that name with every pattern applied in list order.
pub open spec fn spec_rename_of(pats: Seq<PatternView>, path: Seq<char>) -> RenameView {
    RenameView {
        source: spec_file_name(path),
        destination: spec_apply_patterns(pats, spec_file_name(path)),
    }
}

/// The index of the first group whose parent is `parent`, or `-1`.
pub open spec fn spec_find_group(gs: Seq<DirGroupView>, parent: Seq<char>) -> int
    decreases gs.len(),
{
    if gs.len() == 0 {
        -1
    } else if gs[0].parent == parent {
        0
    } else {
        let r = spec_find_group(gs.drop_first(), parent);
        if r == -1 {
            -1
        } else {
            r + 1
        }
    }
}

proof fn lemma_find_group_bounds(gs: Seq<DirGroupView>, parent: Seq<char>)
    ensures
        -1 <= spec_find_group(gs, parent) < gs.len(),
        spec_find_group(gs, parent) >= 0 ==> gs[spec_find_group(gs, parent)].parent == parent,
    decreases gs.len(),
{
    if gs.len() > 0 && gs[0].parent != parent {
        lemma_find_group_bounds(gs.drop_first(), parent);
    }
}

/// A forward scan that stops at the first group with the sought parent (or
/// runs off the end) computes `spec_find_group`.
proof fn lemma_find_group_from_scan(gs: Seq<DirGroupView>, parent: Seq<char>, j: int)
    requires
        0 <= j <= gs.len(),
        forall|k: int| 0 <= k < j ==> gs[k].parent != parent,
        j < gs.len() ==> gs[j].parent == parent,
    ensures
        spec_find_group(gs, parent) == if j == gs.len() {
            -1
        } else {
            j
        },
    decreases gs.len(),
{
    if gs.len() == 0 {
    } else if gs[0].parent == parent {
        assert(j == 0);
    } else {
        assert(j >= 1);
        assert(forall|k: int| 0 <= k < gs.len() - 1 ==> gs.drop_first()[k] == gs[k + 1]);
        lemma_find_group_from_scan(gs.drop_first(), parent, j - 1);
    }
}

/// Appends `r` to the group of `parent`, creating that group at the end of
/// the plan when it is not there yet.
pub open spec fn spec_add_rename(
    gs: Seq<DirGroupView>,
    parent: Seq<char>,
    r: RenameView,
) -> Seq<DirGroupView> {
    let j = spec_find_group(gs, parent);
    if j == -1 {
        gs.push(DirGroupView { parent, renames: seq![r] })
    } else {
        gs.update(j, DirGroupView { parent: gs[j].parent, renames: gs[j].renames.push(r) })
    }
}

/// The proposal and the missing list built from the candidates in order:
/// a candidate that does not exist contributes its path to the missing list
/// and nothing else; an existing one contributes one rename under its parent
/// directory.
pub open spec fn spec_propose(
    cands: Seq<CandidateView>,
    pats: Seq<PatternView>,
) -> (Seq<DirGroupView>, Seq<Seq<char>>)
    decreases cands.len(),
{
    if cands.len() == 0 {
        (Seq::empty(), Seq::empty())
    } else {
        let prev = spec_propose(cands.drop_last(), pats);
        let c = cands.last();
        if !c.exists {
            (prev.0, prev.1.push(c.path))
        } else {
            (spec_add_rename(prev.0, spec_parent(c.path), spec_rename_of(pats, c.path)), prev.1)
        }
    }
}

/// The total number of renames proposed, over all directory groups.
pub open spec fn spec_total_renames(gs: Seq<DirGroupView>) -> nat
    decreases gs.len(),
{
    if gs.len() == 0 {
        0
    } else {
        spec_total_renames(gs.drop_last()) + gs.last().renames.len()
    }
}

proof fn lemma_total_renames_update(gs: Seq<DirGroupView>, j: int, g: DirGroupView)
    requires
        0 <= j < gs.len(),
    ensures
        spec_total_renames(gs.update(j, g)) == spec_total_renames(gs) - gs[j].renames.len()
            + g.renames.len(),
    decreases gs.len(),
{
    let upd = gs.update(j, g);
    if j == gs.len() - 1 {
        assert(upd.drop_last() =~= gs.drop_last());
        assert(upd.last() == g);
    } else {
        assert(upd.drop_last() =~= gs.drop_last().update(j, g));
        assert(upd.last() == gs.last());
        lemma_total_renames_update(gs.drop_last(), j, g);
    }
}

proof fn lemma_total_renames_push(gs: Seq<DirGroupView>, g: DirGroupView)
    ensures
        spec_total_renames(gs.push(g)) == spec_total_renames(gs) + g.renames.len(),
{
    assert(gs.push(g).drop_last() =~= gs);
    assert(gs.push(g).last() == g);
}

/// Adding one rename to a plan grows its total number of renames by one.
proof fn lemma_add_rename_total(gs: Seq<DirGroupView>, parent: Seq<char>, r: RenameView)
    ensures
        spec_total_renames(spec_add_rename(gs, parent, r)) == spec_total_renames(gs) + 1,
{
    let j = spec_find_group(gs, parent);
    lemma_find_group_bounds(gs, parent);
    if j == -1 {
        lemma_total_renames_push(gs, DirGroupView { parent, renames: seq![r] });
    } else {
        lemma_total_renames_update(
            gs,
            j,
            DirGroupView { parent: gs[j].parent, renames: gs[j].renames.push(r) },
        );
    }
}

/// Candidates that do not exist at build time appear in the missing list, in
/// supply order, and contribute no rename: the renames of the proposal are
/// exactly one per existing candidate.
pub proof fn lemma_missing_reported_not_renamed(cands: Seq<CandidateView>, pats: Seq<PatternView>)
    ensures
        spec_propose(cands, pats).1 == cands.filter(|c: CandidateView| !c.exists).map_values(
            |c: CandidateView| c.path,
        ),
        spec_total_renames(spec_propose(cands, pats).0) == cands.filter(
            |c: CandidateView| c.exists,
        ).len(),
    decreases cands.len(),
{
    reveal(Seq::filter);
    let absent = |c: CandidateView| !c.exists;
    let present = |c: CandidateView| c.exists;
    let path_of = |c: CandidateView| c.path;
    if cands.len() == 0 {
        assert(cands.filter(absent).map_values(path_of) =~= Seq::<Seq<char>>::empty());
    } else {
        let prefix = cands.drop_last();
        let c = cands.last();
        lemma_missing_reported_not_renamed(prefix, pats);
        if !c.exists {
            assert(cands.filter(absent) == prefix.filter(absent).push(c));
            assert(prefix.filter(absent).push(c).map_values(path_of) =~= prefix.filter(
                absent,
            ).map_values(path_of).push(c.path));
            assert(cands.filter(present) == prefix.filter(present));
        } else {
            assert(cands.filter(absent) == prefix.filter(absent));
            assert(cands.filter(present) == prefix.filter(present).push(c));
            lemma_add_rename_total(
                spec_propose(prefix, pats).0,
                spec_parent(c.path),
                spec_rename_of(pats, c.path),
            );
        }
    }
}

/// No two groups of a built plan name the same parent directory.
pub open spec fn spec_distinct_parents(gs: Seq<DirGroupView>) -> bool {
    forall|i: int, j: int| 0 <= i < j < gs.len() ==> gs[i].parent != gs[j].parent
}

/// When no group carries `parent`, the scan result says so for every index.
proof fn lemma_find_group_none(gs: Seq<DirGroupView>, parent: Seq<char>)
    requires
        spec_find_group(gs, parent) == -1,
    ensures
        forall|i: int| 0 <= i < gs.len() ==> gs[i].parent != parent,
    decreases gs.len(),
{
    if gs.len() > 0 {
        assert(gs[0].parent != parent);
        lemma_find_group_bounds(gs.drop_first(), parent);
        assert(spec_find_group(gs.drop_first(), parent) == -1);
        lemma_find_group_none(gs.drop_first(), parent);
        assert(forall|i: int| 1 <= i < gs.len() ==> gs[i] == gs.drop_first()[i - 1]);
    }
}

/// Adding a rename never introduces a duplicate parent directory.
proof fn lemma_add_rename_distinct(gs: Seq<DirGroupView>, parent: Seq<char>, r: RenameView)
    requires
        spec_distinct_parents(gs),
    ensures
        spec_distinct_parents(spec_add_rename(gs, parent, r)),
{
    let j = spec_find_group(gs, parent);
    lemma_find_group_bounds(gs, parent);
    if j == -1 {
        lemma_find_group_none(gs, parent);
    }
}

/// The proposal builder groups by parent directory: no directory key is ever
/// repeated.
pub proof fn lemma_propose_distinct_parents(cands: Seq<CandidateView>, pats: Seq<PatternView>)
    ensures
        spec_distinct_parents(spec_propose(cands, pats).0),
    decreases cands.len(),
{
    if cands.len() > 0 {
        lemma_propose_distinct_parents(cands.drop_last(), pats);
        let c = cands.last();
        if c.exists {
            lemma_add_rename_distinct(
                spec_propose(cands.drop_last(), pats).0,
                spec_parent(c.path),
                spec_rename_of(pats, c.path),
            );
        }
    }
}

/// Builds the rename proposal for `candidates` under `patterns`, and the list
/// of candidate paths that do not exist.  Every candidate is processed
/// independently, in order; nothing is merged or deduplicated; no error is
/// ever raised here.
pub fn propose_renames(candidates: &Vec<Candidate>, patterns: &Vec<Pattern>) -> (r: (
    Proposal,
    Vec<String>,
))
    ensures
        r.0@ == spec_propose(candidate_views(candidates@), pattern_views(patterns@)).0,
        string_views(r.1@) == spec_propose(
            candidate_views(candidates@),
            pattern_views(patterns@),
        ).1,
        r.0.wf(),
{
    let mut groups: Vec<DirGroup> = Vec::new();
    let mut missing: Vec<String> = Vec::new();
    let mut i: usize = 0;
    proof {
        assert(groups@.map_values(|g: DirGroup| g@) =~= Seq::<DirGroupView>::empty());
        assert(string_views(missing@) =~= Seq::<Seq<char>>::empty());
        assert(candidate_views(candidates@).take(0) =~= Seq::<CandidateView>::empty());
    }
    while i < candidates.len()
        invariant
            i <= candidates@.len(),
            groups@.map_values(|g: DirGroup| g@) == spec_propose(
                candidate_views(candidates@).take(i as int),
                pattern_views(patterns@),
            ).0,
            string_views(missing@) == spec_propose(
                candidate_views(candidates@).take(i as int),
                pattern_views(patterns@),
            ).1,
        decreases candidates@.len() - i,
    {
        let ghost cviews = candidate_views(candidates@);
        let ghost pviews = pattern_views(patterns@);
        let ghost gviews = groups@.map_values(|g: DirGroup| g@);
        proof {
            assert(cviews.take(i + 1).drop_last() =~= cviews.take(i as int));
            assert(cviews.take(i + 1).last() == cviews[i as int]);
        }
        let c = &candidates[i];
        if !c.exists {
            missing.push(c.path.clone());
            proof {
                assert(string_views(missing@) =~= spec_propose(
                    cviews.take(i as int),
                    pviews,
                ).1.push(cviews[i as int].path));
            }
        } else {
            let (parent, name) = split_path(&c.path);
            let destination = apply_patterns(patterns, &name);
            let rn = Rename { source: name, destination };
            let ghost rnv = spec_rename_of(pviews, cviews[i as int].path);
            proof {
                assert(rn@ == rnv);
            }
            let mut j: usize = 0;
            let mut found = false;
            while j < groups.len() && !found
                invariant
                    0 <= j <= groups@.len(),
                    gviews == groups@.map_values(|g: DirGroup| g@),
                    parent@ == spec_parent(cviews[i as int].path),
                    forall|k: int| 0 <= k < j ==> gviews[k].parent != parent@,
                    found ==> j < groups@.len() && gviews[j as int].parent == parent@,
                decreases groups@.len() - j + (if found { 0int } else { 1int }),
            {
                if groups[j].parent == parent {
                    found = true;
                } else {
                    j = j + 1;
                }
            }
            proof {
                lemma_find_group_from_scan(gviews, parent@, j as int);
            }
            if found {
                let ghost gseq = groups@;
                let mut g = groups.remove(j);
                g.renames.push(rn);
                let ghost gsnap = g;
                groups.insert(j, g);
                proof {
                    let updated = DirGroupView {
                        parent: gviews[j as int].parent,
                        renames: gviews[j as int].renames.push(rnv),
                    };
                    assert(groups@ =~= gseq.update(j as int, gsnap));
                    assert(gsnap@.renames =~= gviews[j as int].renames.push(rnv));
                    assert(gsnap@ == updated);
                    assert(groups@.map_values(|g: DirGroup| g@) =~= gviews.update(
                        j as int,
                        updated,
                    ));
                }
            } else {
                let mut renames: Vec<Rename> = Vec::new();
                renames.push(rn);
                groups.push(DirGroup { parent, renames });
                proof {
                    assert(groups@[groups@.len() - 1]@.renames =~= seq![rnv]);
                    assert(groups@.map_values(|g: DirGroup| g@) =~= gviews.push(
                        groups@[groups@.len() - 1]@,
                    ));
                }
            }
        }
        i = i + 1;
    }
    proof {
        assert(candidate_views(candidates@).take(candidates@.len() as int) =~= candidate_views(
            candidates@,
        ));
        lemma_propose_distinct_parents(candidate_views(candidates@), pattern_views(patterns@));
    }
    (Proposal { groups }, missing)
}

} // verus!

//! The execution controller: classifies the user's confirmation answer and
//! drives the Proposed -> Confirmed -> Applied state machine that applies a
//! proposal, recording per-item failures without ever aborting the batch.
//! The file-system rename itself is performed by the caller: the controller
//! only hands out the next operation and books the reported outcome.

use vstd::prelude::*;

use crate::propose::DirGroupView;
use crate::propose::Proposal;
use crate::propose::RenameView;

verus! {

/// The trichotomy a confirmation prompt can end in.
#[derive(Clone, Copy, Debug, PartialEq, Eq, Structural)]
pub enum Confirmation {
    /// The plan was accepted: `y` or `yes`, case-insensitively.
    Confirmed,
    /// The plan was declined: `n`, `no` (case-insensitively) or an empty
    /// answer.
    Declined,
    /// Anything else.
    Unrecognized,
}

/// The characters stripped from both ends of an answer before it is read.
pub open spec fn spec_is_space(c: char) -> bool {
    c == ' ' || c == '\t' || c == '\n' || c == '\r'
}

/// ASCII lower-casing of one character.
pub open spec fn spec_lower_char(c: char) -> char {
    if 'A' <= c && c <= 'Z' {
        ((c as int) + 32) as char
    } else {
        c
    }
}

/// ASCII lower-casing of a whole sequence.
pub open spec fn spec_lower(s: Seq<char>) -> Seq<char> {
    s.map_values(|c: char| spec_lower_char(c))
}

/// The number of leading space characters of `s`.
pub open spec fn spec_trim_lo(s: Seq<char>) -> int
    decreases s.len(),
{
    if s.len() == 0 {
        0
    } else if spec_is_space(s[0]) {
        1 + spec_trim_lo(s.drop_first())
    } else {
        0
    }
}

/// One past the last non-space character of `s`, or `0` when there is none.
pub open spec fn spec_trim_hi(s: Seq<char>) -> int
    decreases s.len(),
{
    if s.len() == 0 {
        0
    } else if spec_is_space(s.last()) {
        spec_trim_hi(s.drop_last())
    } else {
        s.len() as int
    }
}

/// `s` with leading and trailing spaces removed.
pub open spec fn spec_trim(s: Seq<char>) -> Seq<char> {
    let lo = spec_trim_lo(s);
    let hi = spec_trim_hi(s);
    if lo < hi {
        s.subrange(lo, hi)
    } else {
        Seq::empty()
    }
}

/// How an answer is read: trimmed and lower-cased, `y`/`yes` confirms, an
/// empty answer or `n`/`no` declines, and anything else is unrecognized.
pub open spec fn spec_answer(s: Seq<char>) -> Confirmation {
    let t = spec_lower(spec_trim(s));
    if t == "y"@ || t == "yes"@ {
        Confirmation::Confirmed
    } else if t.len() == 0 || t == "n"@ || t == "no"@ {
        Confirmation::Declined
    } else {
        Confirmation::Unrecognized
    }
}

fn is_space(c: char) -> (r: bool)
    ensures
        r == spec_is_space(c),
{
    c == ' ' || c == '\t' || c == '\n' || c == '\r'
}

fn lower_char(c: char) -> (r: char)
    ensures
        r == spec_lower_char(c),
{
    if c >= 'A' && c <= 'Z' {
        (c as u8 + 32) as char
    } else {
        c
    }
}

/// A scan over leading spaces computes `spec_trim_lo`.
proof fn lemma_trim_lo_scan(s: Seq<char>, k: int)
    requires
        0 <= k <= s.len(),
        forall|j: int| 0 <= j < k ==> spec_is_space(s[j]),
        k < s.len() ==> !spec_is_space(s[k]),
    ensures
        spec_trim_lo(s) == k,
    decreases s.len(),
{
    if s.len() > 0 && spec_is_space(s[0]) {
        assert(k >= 1);
        assert(forall|j: int| 0 <= j < s.len() - 1 ==> s.drop_first()[j] == s[j + 1]);
        lemma_trim_lo_scan(s.drop_first(), k - 1);
    }
}

/// A scan over trailing spaces computes `spec_trim_hi`.
proof fn lemma_trim_hi_scan(s: Seq<char>, k: int)
    requires
        0 <= k <= s.len(),
        forall|j: int| k <= j < s.len() ==> spec_is_space(s[j]),
        k > 0 ==> !spec_is_space(s[k - 1]),
    ensures
        spec_trim_hi(s) == k,
    decreases s.len(),
{
    if s.len() > 0 && spec_is_space(s.last()) {
        assert(k < s.len());
        assert(forall|j: int| 0 <= j < s.len() - 1 ==> s.drop_last()[j] == s[j]);
        lemma_trim_hi_scan(s.drop_last(), k);
    }
}

/// Compares `a`, lower-cased, with `b`.
fn eq_lowered(a: &str, b: &str) -> (r: bool)
    ensures
        r == (spec_lower(a@) == b@),
{
    let na = a.unicode_len();
    let nb = b.unicode_len();
    if na != nb {
        proof {
            assert(spec_lower(a@).len() == a@.len());
        }
        return false;
    }
    let mut j: usize = 0;
    while j < na
        invariant
            0 <= j <= na,
            na == a@.len(),
            na == b@.len(),
            forall|k: int| 0 <= k < j ==> spec_lower(a@)[k] == b@[k],
        decreases na - j,
    {
        let ca = lower_char(a.get_char(j));
        let cb = b.get_char(j);
        if ca != cb {
            proof {
                assert(spec_lower(a@)[j as int] != b@[j as int]);
            }
            return false;
        }
        j = j + 1;
    }
    proof {
        assert(spec_lower(a@) =~= b@);
    }
    true
}

/// Reads a confirmation answer: trimmed and lower-cased, `y`/`yes` confirms,
/// an empty answer or `n`/`no` declines, anything else is unrecognized.
pub fn classify_answer(ans: &str) -> (r: Confirmation)
    ensures
        r == spec_answer(ans@),
{
    let n = ans.unicode_len();
    let mut lo: usize = 0;
    while lo < n && is_space(ans.get_char(lo))
        invariant
            0 <= lo <= n,
            n == ans@.len(),
            forall|j: int| 0 <= j < lo ==> spec_is_space(ans@[j]),
        decreases n - lo,
    {
        lo = lo + 1;
    }
    let mut hi: usize = n;
    while hi > lo && is_space(ans.get_char(hi - 1))
        invariant
            lo <= hi <= n,
            n == ans@.len(),
            forall|j: int| hi <= j < n ==> spec_is_space(ans@[j]),
        decreases hi,
    {
        hi = hi - 1;
    }
    proof {
        if lo < n {
            lemma_trim_lo_scan(ans@, lo as int);
            assert(hi > lo);
            lemma_trim_hi_scan(ans@, hi as int);
            assert(ans@.subrange(lo as int, hi as int) == spec_trim(ans@));
        } else {
            lemma_trim_lo_scan(ans@, lo as int);
            lemma_trim_hi_scan(ans@, 0);
            assert(hi == lo);
            assert(spec_trim(ans@) =~= Seq::<char>::empty());
        }
    }
    let t = ans.substring_char(lo, hi);
    proof {
        assert(t@ == spec_trim(ans@));
    }
    if eq_lowered(t, "y") || eq_lowered(t, "yes") {
        Confirmation::Confirmed
    } else if t.unicode_len() == 0 || eq_lowered(t, "n") || eq_lowered(t, "no") {
        proof {
            assert(t@.len() == 0 ==> spec_lower(t@).len() == 0);
        }
        Confirmation::Declined
    } else {
        proof {
            assert(spec_lower(t@).len() != 0);
        }
        Confirmation::Unrecognized
    }
}

/// One rename operation to perform: `parent/source` is to be moved to
/// `parent/destination`.
pub struct RenameOp {
    pub parent: String,
    pub source: String,
    pub destination: String,
}

/// What a [`RenameOp`] holds, mathematically.
pub ghost struct RenameOpView {
    pub parent: Seq<char>,
    pub source: Seq<char>,
    pub destination: Seq<char>,
}

impl View for RenameOp {
    type V = RenameOpView;

    open spec fn view(&self) -> RenameOpView {
        RenameOpView {
            parent: self.parent@,
            source: self.source@,
            destination: self.destination@,
        }
    }
}

/// The views of a sequence of rename operations.
pub open spec fn op_views(ops: Seq<RenameOp>) -> Seq<RenameOpView> {
    ops.map_values(|op: RenameOp| op@)
}

/// The operations of one directory group, in stored order, no-op renames
/// skipped: a no-op is surfaced in the proposal but never issued.
pub open spec fn spec_ops_of(parent: Seq<char>, rs: Seq<RenameView>) -> Seq<RenameOpView>
    decreases rs.len(),
{
    if rs.len() == 0 {
        Seq::empty()
    } else {
        let prefix = spec_ops_of(parent, rs.drop_last());
        let r = rs.last();
        if r.source == r.destination {
            prefix
        } else {
            prefix.push(RenameOpView { parent, source: r.source, destination: r.destination })
        }
    }
}

/// Every operation of a proposal, directory by directory, each directory's
/// renames in stored order.
pub open spec fn spec_plan(gs: Seq<DirGroupView>) -> Seq<RenameOpView>
    decreases gs.len(),
{
    if gs.len() == 0 {
        Seq::empty()
    } else {
        spec_plan(gs.drop_last()) + spec_ops_of(gs.last().parent, gs.last().renames)
    }
}

/// Flattens a proposal into the ordered list of real (non-no-op) rename
/// operations.
fn build_plan(proposal: &Proposal) -> (r: Vec<RenameOp>)
    ensures
        op_views(r@) == spec_plan(proposal@),
{
    let mut plan: Vec<RenameOp> = Vec::new();
    let mut gi: usize = 0;
    proof {
        assert(op_views(plan@) =~= Seq::<RenameOpView>::empty());
        assert(proposal@.take(0) =~= Seq::<DirGroupView>::empty());
    }
    while gi < proposal.groups.len()
        invariant
            gi <= proposal.groups@.len(),
            proposal@.len() == proposal.groups@.len(),
            op_views(plan@) == spec_plan(proposal@.take(gi as int)),
        decreases proposal.groups@.len() - gi,
    {
        let ghost gviews = proposal@;
        let g = &proposal.groups[gi];
        let ghost rviews = g@.renames;
        let mut ri: usize = 0;
        proof {
            assert(rviews.take(0) =~= Seq::<RenameView>::empty());
            assert(op_views(plan@) + spec_ops_of(g@.parent, rviews.take(0)) =~= op_views(
                plan@,
            ));
        }
        while ri < g.renames.len()
            invariant
                ri <= g.renames@.len(),
                rviews == g@.renames,
                rviews.len() == g.renames@.len(),
                op_views(plan@) == spec_plan(gviews.take(gi as int)) + spec_ops_of(
                    g@.parent,
                    rviews.take(ri as int),
                ),
            decreases g.renames@.len() - ri,
        {
            let rn = &g.renames[ri];
            proof {
                assert(rviews.take(ri + 1).drop_last() =~= rviews.take(ri as int));
                assert(rviews.take(ri + 1).last() == rviews[ri as int]);
                assert(rviews[ri as int] == rn@);
            }
            if !(rn.source == rn.destination) {
                let op = RenameOp {
                    parent: g.parent.clone(),
                    source: rn.source.clone(),
                    destination: rn.destination.clone(),
                };
                let ghost oldplan = plan@;
                let ghost opv = op@;
                plan.push(op);
                proof {
                    assert(op_views(plan@) =~= op_views(oldplan).push(opv));
                    assert(opv == (RenameOpView {
                        parent: g@.parent,
                        source: rviews[ri as int].source,
                        destination: rviews[ri as int].destination,
                    }));
                    assert(spec_ops_of(g@.parent, rviews.take(ri + 1)) == spec_ops_of(
                        g@.parent,
                        rviews.take(ri as int),
                    ).push(opv));
                    assert(op_views(plan@) =~= spec_plan(gviews.take(gi as int)) + spec_ops_of(
                        g@.parent,
                        rviews.take(ri + 1),
                    ));
                }
            }
            ri = ri + 1;
        }
        proof {
            assert(rviews.take(rviews.len() as int) =~= rviews);
            assert(gviews.take(gi + 1).drop_last() =~= gviews.take(gi as int));
            assert(gviews.take(gi + 1).last() == gviews[gi as int]);
            assert(gviews[gi as int] == g@);
        }
        gi = gi + 1;
    }
    proof {
        assert(proposal@.take(proposal@.len() as int) =~= proposal@);
    }
    plan
}

/// The view of an optional error message.
pub open spec fn spec_error_view(e: Option<String>) -> Option<Seq<char>> {
    match e {
        Some(s) => Some(s@),
        None => None,
    }
}

/// The booked outcome of one attempted rename: the operation, and the error
/// captured for it, if it failed.
pub struct OpRecord {
    pub op: RenameOp,
    pub error: Option<String>,
}

/// What an [`OpRecord`] holds, mathematically.
pub ghost struct OpRecordView {
    pub op: RenameOpView,
    pub error: Option<Seq<char>>,
}

impl View for OpRecord {
    type V = OpRecordView;

    open spec fn view(&self) -> OpRecordView {
        OpRecordView { op: self.op@, error: spec_error_view(self.error) }
    }
}

/// The per-rename bookkeeping of one execution: one record per attempted
/// operation, in plan order.  It is purely additive: nothing is retried and
/// nothing is rolled back.
pub struct ExecutionReport {
    pub records: Vec<OpRecord>,
}

impl View for ExecutionReport {
    type V = Seq<OpRecordView>;

    open spec fn view(&self) -> Seq<OpRecordView> {
        self.records@.map_values(|r: OpRecord| r@)
    }
}

/// The states of the execution controller.  `Applied` and `Aborted` are
/// terminal; `Aborted` is reached from `Proposed` in dry-run mode, or when
/// the answer declines or is not recognized.
#[derive(Clone, Copy, Debug, PartialEq, Eq, Structural)]
pub enum Phase {
    Proposed,
    Confirmed,
    Aborted,
    Applied,
}

/// What an [`Executor`] holds, mathematically.
pub ghost struct ExecutorView {
    pub phase: Phase,
    pub dry_run: bool,
    pub plan: Seq<RenameOpView>,
    pub cursor: int,
    pub report: Seq<OpRecordView>,
}

/// The execution controller.  Built over a proposal, it hands out the
/// planned rename operations one by one once confirmed, and books each
/// reported outcome; a failure never stops the batch.
pub struct Executor {
    phase: Phase,
    dry_run: bool,
    plan: Vec<RenameOp>,
    cursor: usize,
    report: ExecutionReport,
}

impl View for Executor {
    type V = ExecutorView;

    closed spec fn view(&self) -> ExecutorView {
        ExecutorView {
            phase: self.phase,
            dry_run: self.dry_run,
            plan: op_views(self.plan@),
            cursor: self.cursor as int,
            report: self.report@,
        }
    }
}

impl Executor {
    /// What every reachable controller state satisfies: the report covers
    /// exactly the operations already attempted, in plan order; nothing is
    /// attempted before confirmation; a dry run never confirms.
    pub open spec fn inv(&self) -> bool {
        &&& 0 <= self@.cursor <= self@.plan.len()
        &&& self@.report.len() == self@.cursor
        &&& forall|i: int| 0 <= i < self@.cursor ==> self@.report[i].op == self@.plan[i]
        &&& (self@.phase is Proposed || self@.phase is Aborted) ==> self@.cursor == 0
        &&& self@.phase is Confirmed ==> self@.cursor < self@.plan.len()
        &&& self@.phase is Applied ==> self@.cursor == self@.plan.len()
        &&& self@.dry_run ==> (self@.phase is Proposed || self@.phase is Aborted)
    }

    /// Plans the execution of `proposal`: every non-no-op rename, in proposal
    /// order.  The controller starts in `Proposed` with an empty report.
    pub fn new(proposal: &Proposal, dry_run: bool) -> (e: Executor)
        ensures
            e.inv(),
            e@.phase is Proposed,
            e@.dry_run == dry_run,
            e@.plan == spec_plan(proposal@),
            e@.cursor == 0,
            e@.report.len() == 0,
    {
        let plan = build_plan(proposal);
        let e = Executor {
            phase: Phase::Proposed,
            dry_run,
            plan,
            cursor: 0,
            report: ExecutionReport { records: Vec::new() },
        };
        proof {
            assert(e@.report =~= Seq::<OpRecordView>::empty());
        }
        e
    }

    /// Feeds the confirmation answer to the controller.  A dry run aborts
    /// whatever the answer was; so does a declined or unrecognized answer.
    /// Only an accepted answer moves on: to `Applied` directly when there is
    /// nothing to do, else to `Confirmed`.
    pub fn decide(&mut self, answer: Confirmation)
        requires
            old(self).inv(),
            old(self)@.phase is Proposed,
        ensures
            final(self).inv(),
            final(self)@.dry_run == old(self)@.dry_run,
            final(self)@.plan == old(self)@.plan,
            final(self)@.cursor == old(self)@.cursor,
            final(self)@.report == old(self)@.report,
            final(self)@.phase == (if !old(self)@.dry_run && answer is Confirmed {
                if old(self)@.plan.len() == 0 {
                    Phase::Applied
                } else {
                    Phase::Confirmed
                }
            } else {
                Phase::Aborted
            }),
    {
        match answer {
            Confirmation::Confirmed => {
                if self.dry_run {
                    self.phase = Phase::Aborted;
                } else if self.plan.len() == 0 {
                    self.phase = Phase::Applied;
                } else {
                    self.phase = Phase::Confirmed;
                }
            },
            _ => {
                self.phase = Phase::Aborted;
            },
        }
    }

    /// The next rename to attempt, if any: `Some` exactly while the
    /// controller is in `Confirmed`.
    pub fn current_op(&self) -> (r: Option<RenameOp>)
        requires
            self.inv(),
        ensures
            match r {
                Some(op) => self@.phase is Confirmed && op@ == self@.plan[self@.cursor],
                None => !(self@.phase is Confirmed),
            },
    {
        match self.phase {
            Phase::Confirmed => {
                let op = &self.plan[self.cursor];
                Some(RenameOp {
                    parent: op.parent.clone(),
                    source: op.source.clone(),
                    destination: op.destination.clone(),
                })
            },
            _ => None,
        }
    }

    /// Books the outcome of the current operation — `None` for success, the
    /// captured message for a failure — and moves to the next one.  The
    /// outcome has no influence on what happens next: after a failure the
    /// remaining renames are still attempted.  When every planned operation
    /// has been booked the controller is `Applied`.
    pub fn record(&mut self, error: Option<String>)
        requires
            old(self).inv(),
            old(self)@.phase is Confirmed,
        ensures
            final(self).inv(),
            final(self)@.dry_run == old(self)@.dry_run,
            final(self)@.plan == old(self)@.plan,
            final(self)@.cursor == old(self)@.cursor + 1,
            final(self)@.report == old(self)@.report.push(OpRecordView {
                op: old(self)@.plan[old(self)@.cursor],
                error: spec_error_view(error),
            }),
            final(self)@.phase == (if old(self)@.cursor + 1 == old(self)@.plan.len() {
                Phase::Applied
            } else {
                Phase::Confirmed
            }),
    {
        let ghost oldreport = self.report@;
        proof {
            assert(old(self)@.cursor < old(self)@.plan.len());
            assert(self.cursor < self.plan@.len());
        }
        let op = {
            let cur = &self.plan[self.cursor];
            RenameOp {
                parent: cur.parent.clone(),
                source: cur.source.clone(),
                destination: cur.destination.clone(),
            }
        };
        self.report.records.push(OpRecord { op, error });
        let len = self.plan.len();
        assert(self.cursor < len);
        self.cursor = self.cursor + 1;
        if self.cursor == len {
            self.phase = Phase::Applied;
        }
        proof {
            assert(self.report@ =~= oldreport.push(OpRecordView {
                op: self@.plan[self@.cursor - 1],
                error: spec_error_view(error),
            }));
        }
    }

    /// The controller's current phase.
    pub fn phase(&self) -> (p: Phase)
        ensures
            p == self@.phase,
    {
        self.phase
    }

    /// Whether this controller was built for a dry run.
    pub fn is_dry_run(&self) -> (r: bool)
        ensures
            r == self@.dry_run,
    {
        self.dry_run
    }

    /// How many real rename operations the plan holds.
    pub fn op_count(&self) -> (n: usize)
        ensures
            n == self@.plan.len(),
    {
        self.plan.len()
    }

    /// The outcomes booked so far.
    pub fn report(&self) -> (r: &ExecutionReport)
        ensures
            r@ == self@.report,
    {
        &self.report
    }
}

/// A dry run never leaves `Proposed` except for `Aborted`: no rename
/// operation is ever handed out — `current_op` answers `Some` only in
/// `Confirmed` — and nothing is ever booked.
pub proof fn lemma_dry_run_never_renames(e: Executor)
    requires
        e.inv(),
        e@.dry_run,
    ensures
        !(e@.phase is Confirmed),
        !(e@.phase is Applied),
        e@.report.len() == 0,
{
}

/// A completed run books exactly one outcome for every planned rename, in
/// plan order: a failure at one operation neither removes nor alters the
/// attempts of the operations after it.
pub proof fn lemma_report_covers_plan(e: Executor)
    requires
        e.inv(),
        e@.phase is Applied,
    ensures
        e@.report.len() == e@.plan.len(),
        forall|i: int| 0 <= i < e@.plan.len() ==> e@.report[i].op == e@.plan[i],
{
}

} // verus!

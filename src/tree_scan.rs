//! The tree scan as a sequence of steps: the scan asks about one node at a
//! time, the caller says whether it is a directory and what it lists, and
//! the scan decides what to visit next and how the tree is assembled.
use vstd::prelude::*;
use crate::mounts::{MountInfo, MountModel};
use crate::order::{lemma_path_order_total, path_cmp, sorted_by, PathOrder};
use crate::scanner::{kept_children, mount_rules, table_ok, within_depth, DirectoryScanner, WalkEntry};
use crate::{ScanError, TreeNode};

verus! {

/// Every directory of the tree lists its children in case-insensitive name
/// order.
pub open spec fn tree_sorted(n: TreeNode) -> bool
    decreases n,
{
    &&& forall|i: int, j: int|
        0 <= i < j < n.children@.len() ==> path_cmp(
            (#[trigger] n.children@[i]).path@,
            (#[trigger] n.children@[j]).path@,
            PathOrder::FoldedName,
        ) <= 0
    &&& forall|i: int| 0 <= i < n.children@.len() ==> tree_sorted(#[trigger] n.children@[i])
}

/// What the caller said about one node, and what the scan made of it.
pub struct Visited {
    pub path: Seq<char>,
    pub depth: nat,
    pub is_dir: bool,
    /// The entries listed, when the scan read the node as a directory.
    pub listing: Option<Seq<WalkEntry>>,
    /// The children the scan planned to visit, in visiting order.
    pub plan: Option<Seq<String>>,
    /// The node's entries could not be read.
    pub failed: bool,
}

/// Whether the scan reads the entries of a node: a directory within the
/// depth limit.
pub open spec fn opens(s: DirectoryScanner, is_dir: bool, depth: nat) -> bool {
    is_dir && depth < usize::MAX && match s.max_depth {
        Some(d) => depth <= d,
        None => true,
    }
}

/// A record agrees with the rules: a node the scan does not open has neither
/// plan nor failure; an opened node either failed or plans exactly the
/// entries of its listing that the inclusion rules keep, in case-insensitive
/// name order.
pub open spec fn visit_ok(v: Visited, s: DirectoryScanner, rules: Option<MountModel>) -> bool {
    &&& (!opens(s, v.is_dir, v.depth) ==> v.plan is None && !v.failed)
    &&& (opens(s, v.is_dir, v.depth) ==> (v.failed <==> v.plan is None))
    &&& (v.plan matches Some(p) ==> (v.listing matches Some(l) && p.to_multiset() == kept_children(
        s,
        rules,
        l,
    ).to_multiset() && sorted_by(p, PathOrder::FoldedName)))
}

pub open spec fn log_ok(log: Seq<Visited>, s: DirectoryScanner, rules: Option<MountModel>) -> bool {
    forall|i: int| 0 <= i < log.len() ==> visit_ok(#[trigger] log[i], s, rules)
}

/// The node at `p` could not be read.
pub open spec fn failed_in(log: Seq<Visited>, p: Seq<char>) -> bool {
    exists|i: int| 0 <= i < log.len() && (#[trigger] log[i]).path == p && log[i].failed
}

/// One of the first `n` entries of the plan `p` has text `x`.
pub open spec fn planned_before(p: Seq<String>, n: int, x: Seq<char>) -> bool {
    exists|k: int| #![trigger p[k]] 0 <= k < n && k < p.len() && p[k]@ == x
}

/// One of the nodes `cs` has path `x`.
pub open spec fn path_among(cs: Seq<TreeNode>, x: Seq<char>) -> bool {
    exists|j: int| #![trigger cs[j]] 0 <= j < cs.len() && cs[j].path@ == x
}

/// The children `cs` are planned children, and every planned child is among
/// them unless it could not be read.
#[verifier::opaque]
pub open spec fn children_cover(cs: Seq<TreeNode>, p: Seq<String>, log: Seq<Visited>) -> bool {
    &&& forall|j: int| 0 <= j < cs.len() ==> planned_before(p, p.len() as int, (#[trigger] cs[j]).path@)
    &&& forall|k: int|
        0 <= k < p.len() ==> path_among(cs, (#[trigger] p[k])@) || failed_in(log, p[k]@)
}

/// Node `t` is what record `v` describes: same path and kind, no children
/// unless it was opened, and then exactly the planned children that could be
/// read.
pub open spec fn node_matches(t: TreeNode, v: Visited, log: Seq<Visited>) -> bool {
    &&& v.path == t.path@
    &&& v.is_dir == t.is_directory
    &&& !v.failed
    &&& match v.plan {
        None => t.children@.len() == 0,
        Some(p) => children_cover(t.children@, p, log),
    }
}

/// Every node of `t` is described by some record of `log`.
#[verifier::opaque]
pub open spec fn built_from(t: TreeNode, log: Seq<Visited>) -> bool
    decreases t,
{
    &&& exists|i: int| 0 <= i < log.len() && node_matches(t, #[trigger] log[i], log)
    &&& forall|j: int| 0 <= j < t.children@.len() ==> built_from(#[trigger] t.children@[j], log)
}

/// Record `v` planned a visit of `p`.
pub open spec fn plans(v: Visited, p: Seq<char>) -> bool {
    match v.plan {
        Some(q) => exists|k: int| 0 <= k < q.len() && (#[trigger] q[k])@ == p,
        None => false,
    }
}

/// Some record planned a visit of `p`.
pub open spec fn is_planned(log: Seq<Visited>, p: Seq<char>) -> bool {
    exists|i: int| 0 <= i < log.len() && plans(#[trigger] log[i], p)
}

/// What the scan needs next.
#[derive(Debug)]
pub enum TreeStep {
    /// Tell the scan about the node at `path`, `depth` levels below the root.
    Visit { path: String, depth: usize },
    /// The scan is over.
    Done(Result<TreeNode, ScanError>),
}

/// A directory whose children are being visited.
struct Frame {
    path: String,
    depth: usize,
    plan: Vec<String>,
    next: usize,
    done: Vec<TreeNode>,
    /// The record of this directory in the log.
    at: Ghost<int>,
}

/// A tree scan in progress.
pub struct TreeScan {
    frames: Vec<Frame>,
    /// The node the scan waits to hear about, and its depth.
    awaiting: Option<(String, usize)>,
    /// Directories below the root that could not be listed, with why; they
    /// are left out of the tree.
    skipped: Vec<(String, ScanError)>,
    root: Ghost<Seq<char>>,
    log: Ghost<Seq<Visited>>,
}

#[verifier::opaque]
spec fn frame_ok(f: Frame, max_depth: Option<usize>, log: Seq<Visited>) -> bool {
    &&& sorted_by(f.plan@, PathOrder::FoldedName)
    &&& f.next <= f.plan@.len()
    &&& (match max_depth {
        Some(d) => f.depth <= d,
        None => true,
    })
    &&& f.depth < usize::MAX
    &&& 0 <= f.at@ < log.len()
    &&& log[f.at@].path == f.path@
    &&& log[f.at@].is_dir
    &&& !log[f.at@].failed
    &&& log[f.at@].plan == Some(f.plan@)
    &&& forall|j: int| 0 <= j < f.done@.len() ==> tree_sorted(#[trigger] f.done@[j])
    &&& forall|j: int| 0 <= j < f.done@.len() ==> built_from(#[trigger] f.done@[j], log)
    &&& forall|j: int|
        0 <= j < f.done@.len() ==> planned_before(f.plan@, f.next as int, (#[trigger] f.done@[j]).path@)
    &&& forall|i: int, j: int|
        0 <= i < j < f.done@.len() ==> path_cmp(
            (#[trigger] f.done@[i]).path@,
            (#[trigger] f.done@[j]).path@,
            PathOrder::FoldedName,
        ) <= 0
}

/// The first `upto` planned children of `f` are built or could not be read.
#[verifier::opaque]
spec fn covered(f: Frame, upto: int, log: Seq<Visited>) -> bool {
    forall|k: int|
        0 <= k < upto ==> path_among(f.done@, (#[trigger] f.plan@[k])@) || failed_in(log, f.plan@[k]@)
}

spec fn last_handed_out(f: Frame, p: Seq<char>) -> bool {
    f.next > 0 && f.plan@[f.next - 1]@ == p
}

spec fn frames_ok(frames: Seq<Frame>, s: DirectoryScanner, log: Seq<Visited>, root: Seq<char>) -> bool {
    &&& forall|i: int| 0 <= i < frames.len() ==> frame_ok(#[trigger] frames[i], s.max_depth, log)
    &&& forall|i: int| 0 <= i < frames.len() ==> (#[trigger] frames[i]).depth == i
    &&& forall|i: int|
        1 <= i < frames.len() ==> last_handed_out(frames[i - 1], (#[trigger] frames[i]).path@)
    &&& forall|i: int|
        0 <= i < frames.len() - 1 ==> covered(#[trigger] frames[i], frames[i].next - 1, log)
    &&& frames.len() > 0 ==> frames[0].path@ == root
}

proof fn lemma_failed_mono(a: Seq<Visited>, b: Seq<Visited>, x: Seq<char>)
    requires
        failed_in(a, x),
        a.len() <= b.len(),
        b.subrange(0, a.len() as int) == a,
    ensures
        failed_in(b, x),
{
    let i = choose|i: int| 0 <= i < a.len() && (#[trigger] a[i]).path == x && a[i].failed;
    assert(b[i] == b.subrange(0, a.len() as int)[i]);
}

proof fn lemma_cover_mono(cs: Seq<TreeNode>, p: Seq<String>, a: Seq<Visited>, b: Seq<Visited>)
    requires
        children_cover(cs, p, a),
        a.len() <= b.len(),
        b.subrange(0, a.len() as int) == a,
    ensures
        children_cover(cs, p, b),
{
    reveal(children_cover);
    assert forall|k: int| 0 <= k < p.len() implies path_among(cs, (#[trigger] p[k])@) || failed_in(
        b,
        p[k]@,
    ) by {
        if failed_in(a, p[k]@) {
            lemma_failed_mono(a, b, p[k]@);
        }
    }
}

proof fn lemma_built_mono(t: TreeNode, a: Seq<Visited>, b: Seq<Visited>)
    requires
        built_from(t, a),
        a.len() <= b.len(),
        b.subrange(0, a.len() as int) == a,
    ensures
        built_from(t, b),
    decreases t,
{
    reveal(built_from);
    let i = choose|i: int| 0 <= i < a.len() && node_matches(t, #[trigger] a[i], a);
    assert(b[i] == b.subrange(0, a.len() as int)[i]);
    let v = a[i];
    match v.plan {
        Some(p) => {
            lemma_cover_mono(t.children@, p, a, b);
        },
        None => {},
    }
    assert(node_matches(t, b[i], b));
    assert forall|j: int| 0 <= j < t.children@.len() implies built_from(#[trigger] t.children@[j], b) by {
        lemma_built_mono(t.children@[j], a, b);
    }
}

proof fn lemma_covered_mono(f: Frame, u: int, a: Seq<Visited>, b: Seq<Visited>)
    requires
        covered(f, u, a),
        a.len() <= b.len(),
        b.subrange(0, a.len() as int) == a,
    ensures
        covered(f, u, b),
{
    reveal(covered);
    assert forall|k: int| 0 <= k < u implies path_among(f.done@, (#[trigger] f.plan@[k])@) || failed_in(
        b,
        f.plan@[k]@,
    ) by {
        if failed_in(a, f.plan@[k]@) {
            lemma_failed_mono(a, b, f.plan@[k]@);
        }
    }
}

proof fn lemma_frame_ok_mono(f: Frame, max_depth: Option<usize>, a: Seq<Visited>, b: Seq<Visited>)
    requires
        frame_ok(f, max_depth, a),
        a.len() <= b.len(),
        b.subrange(0, a.len() as int) == a,
    ensures
        frame_ok(f, max_depth, b),
{
    reveal(frame_ok);
    assert(b[f.at@] == b.subrange(0, a.len() as int)[f.at@]);
    assert forall|j: int| 0 <= j < f.done@.len() implies built_from(#[trigger] f.done@[j], b) by {
        lemma_built_mono(f.done@[j], a, b);
    }
}

proof fn lemma_frames_mono(frames: Seq<Frame>, s: DirectoryScanner, root: Seq<char>, a: Seq<Visited>, b: Seq<Visited>)
    requires
        frames_ok(frames, s, a, root),
        a.len() <= b.len(),
        b.subrange(0, a.len() as int) == a,
    ensures
        frames_ok(frames, s, b, root),
        forall|i: int, u: int| 0 <= i < frames.len() && #[trigger] covered(frames[i], u, a) ==> covered(frames[i], u, b),
{
    assert forall|i: int, u: int| 0 <= i < frames.len() && #[trigger] covered(frames[i], u, a) implies covered(
        frames[i],
        u,
        b,
    ) by {
        lemma_covered_mono(frames[i], u, a, b);
    }
    assert forall|i: int| 0 <= i < frames.len() implies frame_ok(#[trigger] frames[i], s.max_depth, b) by {
        lemma_frame_ok_mono(frames[i], s.max_depth, a, b);
    }
    assert forall|i: int| 0 <= i < frames.len() - 1 implies covered(#[trigger] frames[i], frames[i].next - 1, b) by {
        lemma_covered_mono(frames[i], frames[i].next - 1, a, b);
    }
}

/// Files a finished child into the directory that handed it out last.
fn file_child(top: &mut Frame, t: TreeNode, max_depth: Ghost<Option<usize>>, log: Ghost<Seq<Visited>>)
    requires
        frame_ok(*old(top), max_depth@, log@),
        covered(*old(top), old(top).next - 1, log@),
        tree_sorted(t),
        built_from(t, log@),
        last_handed_out(*old(top), t.path@),
    ensures
        frame_ok(*final(top), max_depth@, log@),
        covered(*final(top), final(top).next as int, log@),
        final(top).path == old(top).path,
        final(top).depth == old(top).depth,
        final(top).plan == old(top).plan,
        final(top).next == old(top).next,
        final(top).at == old(top).at,
{
    let ghost top0 = *top;
    proof {
        reveal(covered);
        reveal(frame_ok);
        let k_new = top0.next - 1;
        assert forall|i: int| 0 <= i < top0.done@.len() implies path_cmp(
            (#[trigger] top0.done@[i]).path@,
            t.path@,
            PathOrder::FoldedName,
        ) <= 0 by {
            assert(planned_before(top0.plan@, top0.next as int, top0.done@[i].path@));
            let k = choose|k: int|
                #![trigger top0.plan@[k]]
                0 <= k < top0.next && k < top0.plan@.len() && top0.plan@[k]@ == top0.done@[i].path@;
            if k < k_new {
                assert(path_cmp(top0.plan@[k]@, top0.plan@[k_new]@, PathOrder::FoldedName) <= 0);
            } else {
                lemma_path_order_total(t.path@, t.path@, t.path@, PathOrder::FoldedName);
            }
        }
    }
    top.done.push(t);
    proof {
        reveal(covered);
        reveal(frame_ok);
        let done = top.done@;
        let n0 = top0.done@.len() as int;
        assert(done == top0.done@.push(t));
        assert forall|j: int| 0 <= j < done.len() implies planned_before(
            top.plan@,
            top.next as int,
            (#[trigger] done[j]).path@,
        ) by {
            if j < n0 {
                assert(done[j] == top0.done@[j]);
            } else {
                let k = top.next - 1;
                assert(top.plan@[k as int]@ == done[j].path@);
            }
        }
        assert forall|j: int| 0 <= j < done.len() implies tree_sorted(#[trigger] done[j])
            && built_from(done[j], log@) by {
            if j < n0 {
                assert(done[j] == top0.done@[j]);
            }
        }
        assert forall|i: int, j: int| 0 <= i < j < done.len() implies path_cmp(
            (#[trigger] done[i]).path@,
            (#[trigger] done[j]).path@,
            PathOrder::FoldedName,
        ) <= 0 by {
            assert(done[i] == top0.done@[i]);
            if j < n0 {
                assert(done[j] == top0.done@[j]);
            }
        }
        assert forall|k: int| 0 <= k < top.next implies path_among(done, (#[trigger] top.plan@[k])@)
            || failed_in(log@, top.plan@[k]@) by {
            if k < top.next - 1 {
                if path_among(top0.done@, top0.plan@[k]@) {
                    let j = choose|j: int|
                        #![trigger top0.done@[j]]
                        0 <= j < top0.done@.len() && top0.done@[j].path@ == top0.plan@[k]@;
                    assert(done[j] == top0.done@[j]);
                }
            } else {
                assert(done[n0] == t);
            }
        }
    }
}

/// Hands out the next planned child of a directory.
fn hand_out(top: &mut Frame, max_depth: Ghost<Option<usize>>, log: Ghost<Seq<Visited>>) -> (r: String)
    requires
        frame_ok(*old(top), max_depth@, log@),
        covered(*old(top), old(top).next as int, log@),
        old(top).next < old(top).plan@.len(),
    ensures
        frame_ok(*final(top), max_depth@, log@),
        covered(*final(top), final(top).next - 1, log@),
        last_handed_out(*final(top), r@),
        r@ == old(top).plan@[old(top).next as int]@,
        final(top).path == old(top).path,
        final(top).depth == old(top).depth,
        final(top).plan == old(top).plan,
        final(top).at == old(top).at,
        final(top).depth < usize::MAX,
{
    proof {
        reveal(covered);
        reveal(frame_ok);
    }
    let child = top.plan[top.next].clone();
    let ghost top0 = *top;
    let n = top.plan.len();
    assert(top.next < n);
    top.next = top.next + 1;
    proof {
        reveal(covered);
        reveal(frame_ok);
        assert(top.done@ == top0.done@);
        assert(top.plan@ == top0.plan@);
        assert forall|j: int| 0 <= j < top.done@.len() implies planned_before(
            top.plan@,
            top.next as int,
            (#[trigger] top.done@[j]).path@,
        ) by {
            assert(planned_before(top0.plan@, top0.next as int, top0.done@[j].path@));
            let k = choose|k: int|
                #![trigger top0.plan@[k]]
                0 <= k < top0.next && k < top0.plan@.len() && top0.plan@[k]@ == top0.done@[j].path@;
            assert(top.plan@[k]@ == top.done@[j].path@);
        }
        assert forall|k: int| 0 <= k < top.next - 1 implies path_among(top.done@, (#[trigger] top.plan@[k])@)
            || failed_in(log@, top.plan@[k]@) by {
            assert(0 <= k < top0.next);
            assert(top0.plan@[k] == top.plan@[k]);
        }
    }
    child
}

impl TreeScan {
    /// The scan is consistent with the configuration and mount rules it runs
    /// under.
    pub closed spec fn wf(&self, s: DirectoryScanner, rules: Option<MountModel>) -> bool {
        &&& frames_ok(self.frames@, s, self.log@, self.root@)
        &&& log_ok(self.log@, s, rules)
        &&& match self.awaiting {
            Some((p, d)) => {
                &&& d == self.frames@.len()
                &&& within_depth(s.max_depth, d)
                &&& (self.frames@.len() > 0 ==> last_handed_out(self.frames@.last(), p@) && covered(
                    self.frames@.last(),
                    self.frames@.last().next - 1,
                    self.log@,
                ))
                &&& (self.frames@.len() == 0 ==> p@ == self.root@)
            },
            None => true,
        }
    }

    /// Whether the scan waits for news of a node.
    pub closed spec fn waiting(&self) -> bool {
        self.awaiting is Some
    }

    /// The node the scan waits to hear about, and its depth.
    pub closed spec fn awaited(&self) -> (Seq<char>, nat) {
        match self.awaiting {
            Some((p, d)) => (p@, d as nat),
            None => (seq![], 0),
        }
    }

    /// Whether the node the scan waits for is the root.
    pub closed spec fn at_root(&self) -> bool {
        self.frames@.len() == 0
    }

    /// The path the scan started at.
    pub closed spec fn root(&self) -> Seq<char> {
        self.root@
    }

    /// What the caller said about each node so far, in the order asked.
    pub closed spec fn log(&self) -> Seq<Visited> {
        self.log@
    }

    /// Starts a scan at `root`; the first step asks about the root.
    pub fn start(s: &DirectoryScanner, root: String) -> (r: (TreeScan, TreeStep))
        ensures
            forall|rules: Option<MountModel>| #[trigger] r.0.wf(*s, rules),
            r.0.waiting(),
            r.0.at_root(),
            r.0.root() == root@,
            r.0.log() == Seq::<Visited>::empty(),
            r.0.awaited() == (root@, 0nat),
            r.1 matches TreeStep::Visit { path, depth } && path@ == root@ && depth == 0,
    {
        let path = root.clone();
        let ghost rp = root@;
        let scan = TreeScan {
            frames: Vec::new(),
            awaiting: Some((root, 0)),
            skipped: Vec::new(),
            root: Ghost(rp),
            log: Ghost(Seq::empty()),
        };
        (scan, TreeStep::Visit { path, depth: 0 })
    }

    /// Takes the list of directories that could not be listed so far.
    pub fn take_skipped(&mut self) -> (r: Vec<(String, ScanError)>)
        ensures
            forall|s: DirectoryScanner, rules: Option<MountModel>| #[trigger] final(self).wf(s, rules)
                == old(self).wf(s, rules),
            final(self).waiting() == old(self).waiting(),
            final(self).awaited() == old(self).awaited(),
            final(self).root() == old(self).root(),
            final(self).log() == old(self).log(),
    {
        let mut out: Vec<(String, ScanError)> = Vec::new();
        std::mem::swap(&mut out, &mut self.skipped);
        out
    }

    /// Hands the scan what was found at the node it asked about: whether it
    /// is a directory and, when the scan opens it, its entries (or why they
    /// could not be read). A directory within the depth limit is opened: its
    /// children are the listed entries that the inclusion rules keep, visited
    /// in case-insensitive name order; one whose own entries cannot be read
    /// is left out while its siblings stay. The scan asks about the next
    /// planned child, or ends with the tree rooted at the starting path that
    /// these answers describe. It fails only when the shared flag is seen set,
    /// or when the root itself could not be listed.
    pub fn answer(
        &mut self,
        s: &DirectoryScanner,
        is_dir: bool,
        listing: Result<Vec<WalkEntry>, ScanError>,
        mount_info: &mut Option<MountInfo>,
    ) -> (r: TreeStep)
        requires
            old(self).wf(*s, mount_rules(*old(mount_info))),
            old(self).waiting(),
            table_ok(*old(mount_info)),
        ensures
            table_ok(*final(mount_info)),
            mount_rules(*final(mount_info)) == mount_rules(*old(mount_info)),
            final(self).root() == old(self).root(),
            !(r matches TreeStep::Done(Err(_))) ==> ({
                let v = final(self).log().last();
                &&& final(self).log().drop_last() == old(self).log()
                &&& v.path == old(self).awaited().0
                &&& v.depth == old(self).awaited().1
                &&& v.is_dir == is_dir
                &&& (opens(*s, is_dir, v.depth) && listing is Ok ==> v.listing == Some(listing->Ok_0@))
                &&& (opens(*s, is_dir, v.depth) ==> (v.failed <==> listing is Err))
                &&& log_ok(final(self).log(), *s, mount_rules(*old(mount_info)))
            }),
            match r {
                TreeStep::Visit { path, depth } => {
                    &&& final(self).wf(*s, mount_rules(*old(mount_info)))
                    &&& final(self).waiting()
                    &&& final(self).awaited() == (path@, depth as nat)
                    &&& within_depth(s.max_depth, depth)
                    &&& is_planned(final(self).log(), path@)
                },
                TreeStep::Done(Ok(t)) => {
                    &&& t.path@ == old(self).root()
                    &&& tree_sorted(t)
                    &&& built_from(t, final(self).log())
                },
                TreeStep::Done(Err(e)) => (e is Cancelled && s.cancellation_flag is Some) || (
                old(self).at_root() && listing == Err::<Vec<WalkEntry>, ScanError>(e)),
            },
            s.cancellation_flag is None && !(old(self).at_root() && listing is Err) ==> !(r matches TreeStep::Done(Err(_))),
    {
        let mut aw: Option<(String, usize)> = None;
        std::mem::swap(&mut aw, &mut self.awaiting);
        let (path, depth) = match aw {
            Some(p) => p,
            None => {
                return TreeStep::Done(Err(ScanError::Cancelled));
            },
        };
        if s.is_cancelled() {
            return TreeStep::Done(Err(ScanError::Cancelled));
        }
        let ghost rules = mount_rules(*mount_info);
        let ghost log0 = self.log@;
        let ghost frames0 = self.frames@;
        let mut finished: Option<TreeNode> = None;
        if s.descends_into(is_dir, depth) && depth < usize::MAX {
            match listing {
                Err(e) => {
                    if self.frames.len() == 0 {
                        return TreeStep::Done(Err(e));
                    }
                    let ghost v = Visited {
                        path: path@,
                        depth: depth as nat,
                        is_dir,
                        listing: None,
                        plan: None,
                        failed: true,
                    };
                    self.log = Ghost(log0.push(v));
                    proof {
                        assert(self.log@.subrange(0, log0.len() as int) =~= log0);
                        lemma_frames_mono(frames0, *s, self.root@, log0, self.log@);
                        assert(self.log@[log0.len() as int] == v);
                        let top = frames0.last();
                        assert(covered(top, top.next - 1, self.log@));
                        reveal(covered);
                        reveal(frame_ok);
                        assert forall|k: int| 0 <= k < top.next implies path_among(
                            top.done@,
                            (#[trigger] top.plan@[k])@,
                        ) || failed_in(self.log@, top.plan@[k]@) by {
                            if k == top.next - 1 {
                                assert(self.log@[log0.len() as int].path == top.plan@[k]@);
                            }
                        }
                        assert(covered(top, top.next as int, self.log@));
                        assert forall|i: int| 0 <= i < self.log@.len() implies visit_ok(
                            #[trigger] self.log@[i],
                            *s,
                            rules,
                        ) by {
                            if i < log0.len() {
                                assert(self.log@[i] == log0[i]);
                            }
                        }
                    }
                    self.skipped.push((path, e));
                },
                Ok(entries) => {
                    let plan = match s.plan_children(&entries, mount_info) {
                        Ok(p) => p,
                        Err(e) => {
                            return TreeStep::Done(Err(e));
                        },
                    };
                    let ghost v = Visited {
                        path: path@,
                        depth: depth as nat,
                        is_dir,
                        listing: Some(entries@),
                        plan: Some(plan@),
                        failed: false,
                    };
                    self.log = Ghost(log0.push(v));
                    let ghost at = log0.len() as int;
                    proof {
                        assert(self.log@.subrange(0, log0.len() as int) =~= log0);
                        lemma_frames_mono(frames0, *s, self.root@, log0, self.log@);
                        assert(self.log@[at] == v);
                        assert forall|i: int| 0 <= i < self.log@.len() implies visit_ok(
                            #[trigger] self.log@[i],
                            *s,
                            rules,
                        ) by {
                            if i < log0.len() {
                                assert(self.log@[i] == log0[i]);
                            }
                        }
                    }
                    let frame = Frame { path, depth, plan, next: 0, done: Vec::new(), at: Ghost(at) };
                    self.frames.push(frame);
                    proof {
                        reveal(frame_ok);
                        let fs = self.frames@;
                        let lg = self.log@;
                        assert(fs.drop_last() == frames0);
                        assert forall|i: int| 0 <= i < fs.len() implies frame_ok(
                            #[trigger] fs[i],
                            s.max_depth,
                            lg,
                        ) by {
                            if i < frames0.len() {
                                assert(fs[i] == frames0[i]);
                            }
                        }
                        assert forall|i: int| 0 <= i < fs.len() - 1 implies covered(
                            #[trigger] fs[i],
                            fs[i].next - 1,
                            lg,
                        ) by {
                            assert(fs[i] == frames0[i]);
                        }
                        assert forall|i: int| 1 <= i < fs.len() implies last_handed_out(
                            fs[i - 1],
                            (#[trigger] fs[i]).path@,
                        ) by {
                            assert(fs[i - 1] == frames0[i - 1]);
                            if i < frames0.len() {
                                assert(fs[i] == frames0[i]);
                            }
                        }
                        if frames0.len() > 0 {
                            assert(fs[0] == frames0[0]);
                        }
                        assert(covered(fs.last(), 0, lg)) by {
                            reveal(covered);
                        }
                    }
                },
            }
        } else {
            let ghost v = Visited {
                path: path@,
                depth: depth as nat,
                is_dir,
                listing: None,
                plan: None,
                failed: false,
            };
            self.log = Ghost(log0.push(v));
            let leaf = TreeNode::from_parts(path, is_dir, Vec::new());
            proof {
                assert(self.log@.subrange(0, log0.len() as int) =~= log0);
                lemma_frames_mono(frames0, *s, self.root@, log0, self.log@);
                assert(self.log@[log0.len() as int] == v);
                assert(node_matches(leaf, self.log@[log0.len() as int], self.log@));
                reveal(built_from);
                assert(built_from(leaf, self.log@));
                assert forall|i: int| 0 <= i < self.log@.len() implies visit_ok(
                    #[trigger] self.log@[i],
                    *s,
                    rules,
                ) by {
                    if i < log0.len() {
                        assert(self.log@[i] == log0[i]);
                    }
                }
            }
            finished = Some(leaf);
        }
        self.advance(s, finished, Ghost(rules))
    }

    /// Files `finished` (the node just completed, if any) into its parent,
    /// closes every directory whose children are all done, and asks about the
    /// next child.
    #[verifier::rlimit(80)]
    fn advance(&mut self, s: &DirectoryScanner, finished: Option<TreeNode>, rules: Ghost<Option<MountModel>>) -> (r: TreeStep)
        requires
            frames_ok(old(self).frames@, *s, old(self).log@, old(self).root@),
            log_ok(old(self).log@, *s, rules@),
            old(self).log@.len() > 0,
            old(self).awaiting is None,
            finished is None ==> old(self).frames@.len() > 0 && covered(
                old(self).frames@.last(),
                old(self).frames@.last().next as int,
                old(self).log@,
            ),
            finished matches Some(t) ==> tree_sorted(t) && built_from(t, old(self).log@) && (
            old(self).frames@.len() > 0 ==> last_handed_out(old(self).frames@.last(), t.path@)
                && covered(old(self).frames@.last(), old(self).frames@.last().next - 1, old(self).log@))
                && (old(self).frames@.len() == 0 ==> t.path@ == old(self).root@),
        ensures
            final(self).log@ == old(self).log@,
            final(self).root@ == old(self).root@,
            match r {
                TreeStep::Visit { path, depth } => {
                    &&& final(self).wf(*s, rules@)
                    &&& final(self).waiting()
                    &&& final(self).awaited() == (path@, depth as nat)
                    &&& within_depth(s.max_depth, depth)
                    &&& is_planned(final(self).log@, path@)
                },
                TreeStep::Done(Ok(t)) => t.path@ == old(self).root@ && tree_sorted(t) && built_from(
                    t,
                    final(self).log@,
                ),
                TreeStep::Done(Err(e)) => e is Cancelled && s.cancellation_flag is Some,
            },
    {
        let ghost log = self.log@;
        let ghost root = self.root@;
        let mut pending = finished;
        loop
            invariant
                self.log@ == log,
                self.root@ == root,
                log == old(self).log@,
                root == old(self).root@,
                log_ok(log, *s, rules@),
                frames_ok(self.frames@, *s, log, root),
                self.awaiting is None,
                pending is None ==> self.frames@.len() > 0 && covered(
                    self.frames@.last(),
                    self.frames@.last().next as int,
                    log,
                ),
                pending matches Some(t) ==> tree_sorted(t) && built_from(t, log) && (
                self.frames@.len() > 0 ==> last_handed_out(self.frames@.last(), t.path@) && covered(
                    self.frames@.last(),
                    self.frames@.last().next - 1,
                    log,
                )) && (self.frames@.len() == 0 ==> t.path@ == root),
            decreases self.frames@.len(),
        {
            if let Some(t) = pending {
                if self.frames.len() == 0 {
                    return TreeStep::Done(Ok(t));
                }
                let ghost before = self.frames@;
                let mut top = self.frames.pop().unwrap();
                file_child(&mut top, t, Ghost(s.max_depth), Ghost(log));
                self.frames.push(top);
                proof {
                    assert(self.frames@.drop_last() =~= before.drop_last());
                    lemma_replace_top(before, self.frames@, *s, log, root);
                }
            }
            let ghost before = self.frames@;
            let mut top = self.frames.pop().unwrap();
            assert(top == before.last());
            if top.next < top.plan.len() {
                if s.is_cancelled() {
                    return TreeStep::Done(Err(ScanError::Cancelled));
                }
                let ghost top0 = top;
                let child = hand_out(&mut top, Ghost(s.max_depth), Ghost(log));
                let d = top.depth + 1;
                self.frames.push(top);
                proof {
                    assert(self.frames@.drop_last() =~= before.drop_last());
                    lemma_replace_top(before, self.frames@, *s, log, root);
                    reveal(frame_ok);
                    let i = top.at@;
                    let k = top0.next as int;
                    assert(log[i].plan == Some(top.plan@));
                    assert(top.plan@[k]@ == child@);
                    assert(plans(log[i], child@));
                    assert(is_planned(log, child@));
                }
                self.awaiting = Some((child.clone(), d));
                return TreeStep::Visit { path: child, depth: d };
            }
            let Frame { path, depth, plan, next, done, at } = top;
            let node = TreeNode::from_parts(path, true, done);
            proof {
                reveal(covered);
                reveal(children_cover);
                reveal(built_from);
                reveal(frame_ok);
                assert(frame_ok(top, s.max_depth, log));
                assert(log[at@].plan == Some(top.plan@));
                assert(node.children@ == top.done@);
                assert(children_cover(node.children@, top.plan@, log));
                assert(node_matches(node, log[at@], log));
                assert forall|j: int| 0 <= j < node.children@.len() implies built_from(
                    #[trigger] node.children@[j],
                    log,
                ) by {
                    assert(node.children@[j] == top.done@[j]);
                }
                assert(built_from(node, log));
                assert forall|j: int| 0 <= j < node.children@.len() implies tree_sorted(
                    #[trigger] node.children@[j],
                ) by {
                    assert(node.children@[j] == top.done@[j]);
                }
                lemma_drop_top(before, self.frames@, *s, log, root);
            }
            pending = Some(node);
        }
    }
}

/// Replacing the innermost frame by one for the same directory keeps the
/// stack consistent.
proof fn lemma_replace_top(before: Seq<Frame>, after: Seq<Frame>, s: DirectoryScanner, log: Seq<Visited>, root: Seq<char>)
    requires
        frames_ok(before, s, log, root),
        before.len() > 0,
        after.len() == before.len(),
        after.drop_last() == before.drop_last(),
        frame_ok(after.last(), s.max_depth, log),
        after.last().path == before.last().path,
        after.last().depth == before.last().depth,
    ensures
        frames_ok(after, s, log, root),
{
    assert forall|i: int| 0 <= i < after.len() implies frame_ok(#[trigger] after[i], s.max_depth, log)
        && after[i].depth == i by {
        if i < after.len() - 1 {
            assert(after[i] == after.drop_last()[i]);
            assert(before[i] == before.drop_last()[i]);
        }
    }
    assert forall|i: int| 0 <= i < after.len() - 1 implies covered(#[trigger] after[i], after[i].next - 1, log) by {
        assert(after[i] == after.drop_last()[i]);
        assert(before[i] == before.drop_last()[i]);
    }
    assert forall|i: int| 1 <= i < after.len() implies last_handed_out(
        after[i - 1],
        (#[trigger] after[i]).path@,
    ) by {
        assert(before[i - 1] == before.drop_last()[i - 1]);
        assert(after[i - 1] == after.drop_last()[i - 1]);
        if i < after.len() - 1 {
            assert(after[i] == after.drop_last()[i]);
            assert(before[i] == before.drop_last()[i]);
        }
    }
    if after.len() > 1 {
        assert(after[0] == after.drop_last()[0]);
        assert(before[0] == before.drop_last()[0]);
    }
}

/// Removing the innermost frame keeps the stack consistent.
proof fn lemma_drop_top(before: Seq<Frame>, after: Seq<Frame>, s: DirectoryScanner, log: Seq<Visited>, root: Seq<char>)
    requires
        frames_ok(before, s, log, root),
        before.len() > 0,
        after == before.drop_last(),
    ensures
        frames_ok(after, s, log, root),
        after.len() > 0 ==> last_handed_out(after.last(), before.last().path@) && covered(
            after.last(),
            after.last().next - 1,
            log,
        ),
        after.len() == 0 ==> before.last().path@ == root,
{
    assert forall|i: int| 0 <= i < after.len() implies frame_ok(#[trigger] after[i], s.max_depth, log)
        && after[i].depth == i by {
        assert(after[i] == before[i]);
    }
    assert forall|i: int| 0 <= i < after.len() - 1 implies covered(#[trigger] after[i], after[i].next - 1, log) by {
        assert(after[i] == before[i]);
    }
    assert forall|i: int| 1 <= i < after.len() implies last_handed_out(
        after[i - 1],
        (#[trigger] after[i]).path@,
    ) by {
        assert(after[i] == before[i]);
        assert(after[i - 1] == before[i - 1]);
    }
    if after.len() > 0 {
        assert(after.last() == before[before.len() - 2]);
        assert(after[0] == before[0]);
    }
}

} // verus!

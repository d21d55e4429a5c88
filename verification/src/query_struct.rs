//! A declarative tree-query framework.
//!
//! A [`NodePat`] describes the shape of a subtree: an optional kind tag, an
//! optional field name, an optional capture slot, and an ordered list of
//! child patterns, each possibly optional. [`run_query`] matches a pattern
//! against a [`SynNode`] tree and returns one [`MatchRecord`] per match, in
//! document order; each record maps capture slots to the paths of the
//! captured nodes. The meaning of a query is pinned down by the spec
//! functions [`pat_matches`] and [`query_spec`], and every match is produced
//! against them.
//!
//! Child patterns must match distinct children in source order. An optional
//! child pattern binds each fitting child in turn, one match per choice, and
//! stays absent only when no choice completes a match.

use vstd::prelude::*;

use crate::tree::{node_at, SynNode};

verus! {

/// A path of child indices leading from a query root to a captured node.
#[derive(Debug)]
pub struct NodePath {
    pub steps: Vec<usize>,
}

impl View for NodePath {
    type V = Seq<usize>;

    open spec fn view(&self) -> Seq<usize> {
        self.steps@
    }
}

impl DeepView for NodePath {
    type V = Seq<usize>;

    open spec fn deep_view(&self) -> Seq<usize> {
        self.steps@
    }
}

impl NodePath {
    /// The empty path, naming the query root itself.
    pub fn here() -> (r: NodePath)
        ensures
            r@ == Seq::<usize>::empty(),
    {
        NodePath { steps: Vec::new() }
    }

    /// The path one child index deeper.
    pub fn child(&self, i: usize) -> (r: NodePath)
        ensures
            r@ == self@.push(i),
    {
        let mut steps = self.steps.clone();
        proof {
            assert(steps@ =~= self.steps@);
        }
        steps.push(i);
        NodePath { steps }
    }

    /// A copy of the path.
    pub fn duplicate(&self) -> (r: NodePath)
        ensures
            r@ == self@,
    {
        let steps = self.steps.clone();
        proof {
            assert(steps@ =~= self.steps@);
        }
        NodePath { steps }
    }
}

/// One match of a pattern: for every capture slot, the path of the captured
/// node, or nothing where an optional sub-pattern stayed absent.
#[derive(Debug)]
pub struct MatchRecord {
    pub caps: Vec<Option<NodePath>>,
}

impl DeepView for MatchRecord {
    type V = Seq<Option<Seq<usize>>>;

    open spec fn deep_view(&self) -> Seq<Option<Seq<usize>>> {
        self.caps.deep_view()
    }
}

impl MatchRecord {
    /// A record with `nc` empty capture slots.
    pub fn new_empty(nc: usize) -> (r: MatchRecord)
        ensures
            r.deep_view() == empty_asg(nc as nat),
            r.caps@.len() == nc,
    {
        let mut caps: Vec<Option<NodePath>> = Vec::new();
        let mut i: usize = 0;
        while i < nc
            invariant
                i <= nc,
                caps@.len() == i,
                forall|j: int| 0 <= j < i ==> caps@[j] is None,
            decreases nc - i,
        {
            caps.push(None);
            i = i + 1;
        }
        let r = MatchRecord { caps };
        proof {
            assert(r.deep_view() =~= empty_asg(nc as nat));
        }
        r
    }

    /// Decode the capture in `slot` whose declared type is required.
    ///
    /// An absent required capture is a defect in the calling check's pattern,
    /// not a user-facing condition, so it is ruled out here rather than
    /// tolerated.
    pub fn required(&self, slot: usize) -> (r: &NodePath)
        requires
            slot < self.deep_view().len(),
            self.deep_view()[slot as int] is Some,
        ensures
            Some(r@) == self.deep_view()[slot as int],
    {
        match &self.caps[slot] {
            Some(p) => p,
            None => unreached(),
        }
    }

    /// Decode the capture in `slot` whose declared type is optional.
    pub fn optional(&self, slot: usize) -> (r: Option<&NodePath>)
        requires
            slot < self.deep_view().len(),
        ensures
            match r {
                Some(p) => self.deep_view()[slot as int] == Some(p@),
                None => self.deep_view()[slot as int] is None,
            },
    {
        match &self.caps[slot] {
            Some(p) => Some(p),
            None => None,
        }
    }
}

/// Mathematical image of a [`NodePat`].
#[verifier::ext_equal]
pub struct PatV {
    pub kind: Option<Seq<char>>,
    pub field: Option<Seq<char>>,
    pub capture: Option<usize>,
    pub children: Seq<ChildPatV>,
}

/// Mathematical image of a [`ChildPat`].
#[verifier::ext_equal]
pub struct ChildPatV {
    pub optional: bool,
    pub pat: PatV,
}

/// A declarative pattern over one node: an optional kind tag to demand, an
/// optional field name the node must sit under, an optional capture slot to
/// bind the node to, and sub-patterns for its children.
#[derive(Debug)]
pub struct NodePat {
    pub kind: Option<String>,
    pub field: Option<String>,
    pub capture: Option<usize>,
    pub children: Vec<ChildPat>,
}

/// One sub-pattern in a pattern's child list.
#[derive(Debug)]
pub struct ChildPat {
    pub optional: bool,
    pub pat: NodePat,
}

/// The mathematical image of a pattern.
pub open spec fn pat_view(p: NodePat) -> PatV
    decreases p, 1int,
{
    PatV {
        kind: match p.kind {
            Some(k) => Some(k@),
            None => None,
        },
        field: match p.field {
            Some(f) => Some(f@),
            None => None,
        },
        capture: p.capture,
        children: pats_view(p.children@),
    }
}

/// The mathematical image of a child-pattern list.
pub open spec fn pats_view(s: Seq<ChildPat>) -> Seq<ChildPatV>
    decreases s, 0int,
{
    if s.len() == 0 {
        Seq::empty()
    } else {
        seq![ChildPatV { optional: s[0].optional, pat: pat_view(s[0].pat) }] + pats_view(
            s.drop_first(),
        )
    }
}

/// How deep below the queried root a pattern may be anchored.
#[derive(Clone, Copy, PartialEq, Eq, Structural, Debug)]
pub enum MatchDepth {
    /// Anchor at the root alone; captured children are direct children.
    Root,
    /// Anchor at the root or one of its children.
    RootOrChildren,
    /// Anchor anywhere in the subtree.
    Unbounded,
}

/// The depth bound that remains one level further down, if any.
pub open spec fn depth_next(d: MatchDepth) -> Option<MatchDepth> {
    match d {
        MatchDepth::Root => None,
        MatchDepth::RootOrChildren => Some(MatchDepth::Root),
        MatchDepth::Unbounded => Some(MatchDepth::Unbounded),
    }
}

/// The assignment that binds no capture slot.
pub open spec fn empty_asg(nc: nat) -> Seq<Option<Seq<usize>>> {
    Seq::new(nc, |i: int| None)
}

/// Combine two assignments, keeping the left binding where both bind a slot.
pub open spec fn asg_merge(
    a: Seq<Option<Seq<usize>>>,
    b: Seq<Option<Seq<usize>>>,
) -> Seq<Option<Seq<usize>>> {
    Seq::new(a.len(), |i: int| if a[i] is Some { a[i] } else { b[i] })
}

/// Merge every assignment of `xs` with every assignment of `ys`,
/// in `xs`-major order.
pub open spec fn cross_merge(
    xs: Seq<Seq<Option<Seq<usize>>>>,
    ys: Seq<Seq<Option<Seq<usize>>>>,
) -> Seq<Seq<Option<Seq<usize>>>>
    decreases xs.len(),
{
    if xs.len() == 0 {
        Seq::empty()
    } else {
        ys.map_values(|y: Seq<Option<Seq<usize>>>| asg_merge(xs[0], y)) + cross_merge(
            xs.drop_first(),
            ys,
        )
    }
}

/// Whether a node satisfies a pattern's own constraints: the node is named,
/// carries the demanded kind tag, and sits under the demanded field.
pub open spec fn local_match(pat: PatV, n: SynNode) -> bool {
    &&& n.named
    &&& (pat.kind matches Some(k) ==> n.kind@ == k)
    &&& (pat.field matches Some(f) ==> n.field matches Some(g) && g@ == f)
}

/// All assignments produced by matching `pat` against the node `n`, whose
/// path from the query root is `p`, with `nc` capture slots; in document
/// order.
pub open spec fn pat_matches(pat: PatV, n: SynNode, p: Seq<usize>, nc: nat) -> Seq<
    Seq<Option<Seq<usize>>>,
>
    decreases n, 2int, 0int, 0int,
{
    if local_match(pat, n) {
        let base = match pat.capture {
            Some(c) => if (c as int) < nc {
                empty_asg(nc).update(c as int, Some(p))
            } else {
                empty_asg(nc)
            },
            None => empty_asg(nc),
        };
        pats_matches(pat.children, n, p, 0, 0, nc).map_values(
            |a: Seq<Option<Seq<usize>>>| asg_merge(base, a),
        )
    } else {
        Seq::empty()
    }
}

/// All assignments produced by placing the child patterns `pats[pi..]` on
/// distinct children of `n` at positions at least `from`, in source order.
pub open spec fn pats_matches(
    pats: Seq<ChildPatV>,
    n: SynNode,
    p: Seq<usize>,
    pi: int,
    from: int,
    nc: nat,
) -> Seq<Seq<Option<Seq<usize>>>>
    decreases n, 1int, pats.len() - pi, 1int, 0int,
{
    if pi < 0 || pi >= pats.len() {
        seq![empty_asg(nc)]
    } else {
        let takes = takes_from(pats, n, p, pi, from, nc);
        if pats[pi].optional && takes.len() == 0 {
            pats_matches(pats, n, p, pi + 1, from, nc)
        } else {
            takes
        }
    }
}

/// The assignments that place `pats[pi]` on some child at position `from` or
/// later and the remaining patterns on children after it.
pub open spec fn takes_from(
    pats: Seq<ChildPatV>,
    n: SynNode,
    p: Seq<usize>,
    pi: int,
    from: int,
    nc: nat,
) -> Seq<Seq<Option<Seq<usize>>>>
    decreases n, 1int, pats.len() - pi, 0int, n.children@.len() - from,
{
    if pi < 0 || pi >= pats.len() || from < 0 || from >= n.children@.len() {
        Seq::empty()
    } else {
        cross_merge(
            pat_matches(pats[pi].pat, n.children@[from], p.push(from as usize), nc),
            pats_matches(pats, n, p, pi + 1, from + 1, nc),
        ) + takes_from(pats, n, p, pi, from + 1, nc)
    }
}

/// All assignments of `pat` anchored at `n` or below it, as the depth bound
/// `d` allows, in document order.
pub open spec fn query_spec(pat: PatV, n: SynNode, p: Seq<usize>, d: MatchDepth, nc: nat) -> Seq<
    Seq<Option<Seq<usize>>>,
>
    decreases n, 4int, 0int, 0int, 0int,
{
    pat_matches(pat, n, p, nc) + (match depth_next(d) {
        Some(dn) => query_children(pat, n, p, 0, dn, nc),
        None => Seq::empty(),
    })
}

/// All assignments of `pat` anchored in the subtrees of `n`'s children at
/// positions `from` and later.
pub open spec fn query_children(
    pat: PatV,
    n: SynNode,
    p: Seq<usize>,
    from: int,
    d: MatchDepth,
    nc: nat,
) -> Seq<Seq<Option<Seq<usize>>>>
    decreases n, 3int, 0int, 0int, n.children@.len() - from,
{
    if from < 0 || from >= n.children@.len() {
        Seq::empty()
    } else {
        query_spec(pat, n.children@[from], p.push(from as usize), d, nc) + query_children(
            pat,
            n,
            p,
            from + 1,
            d,
            nc,
        )
    }
}

} // verus!

verus! {

/// `pats_view` maps the list elementwise.
pub proof fn lemma_pats_view_index(s: Seq<ChildPat>)
    ensures
        pats_view(s).len() == s.len(),
        forall|i: int|
            0 <= i < s.len() ==> #[trigger] pats_view(s)[i] == (ChildPatV {
                optional: s[i].optional,
                pat: pat_view(s[i].pat),
            }),
    decreases s.len(),
{
    if s.len() == 0 {
    } else {
        lemma_pats_view_index(s.drop_first());
        assert forall|i: int| 0 <= i < s.len() implies #[trigger] pats_view(s)[i] == (ChildPatV {
            optional: s[i].optional,
            pat: pat_view(s[i].pat),
        }) by {
            if i == 0 {
            } else {
                assert(pats_view(s)[i] == pats_view(s.drop_first())[i - 1]);
                assert(s.drop_first()[i - 1] == s[i]);
            }
        }
    }
}

/// Whether a node satisfies a pattern's own constraints; the executable
/// counterpart of [`local_match`].
fn local_match_exec(pat: &NodePat, n: &SynNode) -> (r: bool)
    ensures
        r == local_match(pat_view(*pat), *n),
{
    if !n.named {
        return false;
    }
    let kind_ok = match &pat.kind {
        Some(k) => n.kind_is(k.as_str()),
        None => true,
    };
    if !kind_ok {
        return false;
    }
    match &pat.field {
        Some(f) => match &n.field {
            Some(g) => *g == *f,
            None => false,
        },
        None => true,
    }
}

/// A record binding only the slot `c` to the path `p`.
fn singleton_record(nc: usize, c: usize, p: &NodePath) -> (r: MatchRecord)
    requires
        c < nc,
    ensures
        r.deep_view() == empty_asg(nc as nat).update(c as int, Some(p@)),
        r.caps@.len() == nc,
{
    let mut caps: Vec<Option<NodePath>> = Vec::new();
    let mut i: usize = 0;
    while i < nc
        invariant
            i <= nc,
            c < nc,
            caps@.len() == i,
            forall|j: int|
                0 <= j < i ==> (#[trigger] caps@[j]).deep_view() == if j == c {
                    Some(p@)
                } else {
                    None::<Seq<usize>>
                },
        decreases nc - i,
    {
        if i == c {
            caps.push(Some(p.duplicate()));
        } else {
            caps.push(None);
        }
        i = i + 1;
    }
    let r = MatchRecord { caps };
    proof {
        assert(r.deep_view() =~= empty_asg(nc as nat).update(c as int, Some(p@)));
    }
    r
}

/// Combine two records, keeping the left binding where both bind a slot;
/// the executable counterpart of [`asg_merge`].
fn merge_records(a: &MatchRecord, b: &MatchRecord) -> (r: MatchRecord)
    requires
        a.caps@.len() == b.caps@.len(),
    ensures
        r.deep_view() == asg_merge(a.deep_view(), b.deep_view()),
        r.caps@.len() == a.caps@.len(),
{
    let n = a.caps.len();
    let mut caps: Vec<Option<NodePath>> = Vec::new();
    let mut i: usize = 0;
    while i < n
        invariant
            i <= n,
            n == a.caps@.len(),
            n == b.caps@.len(),
            caps@.len() == i,
            forall|j: int|
                0 <= j < i ==> (#[trigger] caps@[j]).deep_view() == asg_merge(
                    a.deep_view(),
                    b.deep_view(),
                )[j],
        decreases n - i,
    {
        let slot: Option<NodePath> = match &a.caps[i] {
            Some(p) => Some(p.duplicate()),
            None => match &b.caps[i] {
                Some(q) => Some(q.duplicate()),
                None => None,
            },
        };
        caps.push(slot);
        i = i + 1;
    }
    let r = MatchRecord { caps };
    proof {
        assert(r.deep_view() =~= asg_merge(a.deep_view(), b.deep_view()));
    }
    r
}

/// Merge every record of `xs` with every record of `ys`, in `xs`-major
/// order; the executable counterpart of [`cross_merge`].
fn cross_records(xs: &Vec<MatchRecord>, ys: &Vec<MatchRecord>, nc: usize) -> (r: Vec<MatchRecord>)
    requires
        forall|k: int| 0 <= k < xs@.len() ==> (#[trigger] xs@[k]).caps@.len() == nc,
        forall|k: int| 0 <= k < ys@.len() ==> (#[trigger] ys@[k]).caps@.len() == nc,
    ensures
        r.deep_view() == cross_merge(xs.deep_view(), ys.deep_view()),
        forall|k: int| 0 <= k < r@.len() ==> (#[trigger] r@[k]).caps@.len() == nc,
{
    let mut r: Vec<MatchRecord> = Vec::new();
    proof {
        assert(xs.deep_view().skip(0) =~= xs.deep_view());
    }
    let mut i: usize = 0;
    while i < xs.len()
        invariant
            i <= xs@.len(),
            forall|k: int| 0 <= k < xs@.len() ==> (#[trigger] xs@[k]).caps@.len() == nc,
            forall|k: int| 0 <= k < ys@.len() ==> (#[trigger] ys@[k]).caps@.len() == nc,
            forall|k: int| 0 <= k < r@.len() ==> (#[trigger] r@[k]).caps@.len() == nc,
            r.deep_view() + cross_merge(xs.deep_view().skip(i as int), ys.deep_view())
                == cross_merge(xs.deep_view(), ys.deep_view()),
        decreases xs@.len() - i,
    {
        let ghost row = ys.deep_view().map_values(
            |y: Seq<Option<Seq<usize>>>| asg_merge(xs.deep_view()[i as int], y),
        );
        let ghost r0 = r.deep_view();
        let ghost rsnap = r@;
        let ghost n0 = r@.len();
        let mut j: usize = 0;
        while j < ys.len()
            invariant
                i < xs@.len(),
                j <= ys@.len(),
                forall|k: int| 0 <= k < xs@.len() ==> (#[trigger] xs@[k]).caps@.len() == nc,
                forall|k: int| 0 <= k < ys@.len() ==> (#[trigger] ys@[k]).caps@.len() == nc,
                forall|k: int| 0 <= k < r@.len() ==> (#[trigger] r@[k]).caps@.len() == nc,
                row == ys.deep_view().map_values(
                    |y: Seq<Option<Seq<usize>>>| asg_merge(xs.deep_view()[i as int], y),
                ),
                r@.len() == n0 + j,
                forall|k: int| 0 <= k < n0 ==> #[trigger] r@[k] == rsnap[k],
                forall|k: int| 0 <= k < j ==> (#[trigger] r@[n0 + k]).deep_view() == row[k],
            decreases ys@.len() - j,
        {
            let m = merge_records(&xs[i], &ys[j]);
            proof {
                assert(xs.deep_view()[i as int] == xs@[i as int].deep_view());
                assert(ys.deep_view()[j as int] == ys@[j as int].deep_view());
                assert(row[j as int] == asg_merge(
                    xs.deep_view()[i as int],
                    ys.deep_view()[j as int],
                ));
            }
            r.push(m);
            j = j + 1;
        }
        proof {
            assert forall|k: int| n0 <= k < r@.len() implies (#[trigger] r@[k]).deep_view()
                == row[k - n0] by {
                assert(r@[n0 + (k - n0)].deep_view() == row[k - n0]);
            }
            assert(r.deep_view() =~= r0 + row);
            let sk = xs.deep_view().skip(i as int);
            assert(sk[0] == xs.deep_view()[i as int]);
            assert(sk.drop_first() =~= xs.deep_view().skip(i as int + 1));
            assert(cross_merge(sk, ys.deep_view()) == row + cross_merge(
                xs.deep_view().skip(i as int + 1),
                ys.deep_view(),
            ));
            assert(r.deep_view() + cross_merge(xs.deep_view().skip(i as int + 1), ys.deep_view())
                =~= (r0 + row) + cross_merge(xs.deep_view().skip(i as int + 1), ys.deep_view()));
            assert((r0 + row) + cross_merge(xs.deep_view().skip(i as int + 1), ys.deep_view()) =~= r0
                + cross_merge(sk, ys.deep_view()));
        }
        i = i + 1;
    }
    proof {
        assert(xs.deep_view().skip(xs@.len() as int) =~= Seq::<Seq<Option<Seq<usize>>>>::empty());
        assert(r.deep_view() + Seq::<Seq<Option<Seq<usize>>>>::empty() =~= r.deep_view());
    }
    r
}

} // verus!

verus! {

/// All matches of `pat` anchored exactly at `n`; the executable counterpart
/// of [`pat_matches`].
fn match_pat_at(pat: &NodePat, n: &SynNode, p: &NodePath, nc: usize) -> (r: Vec<MatchRecord>)
    ensures
        r.deep_view() == pat_matches(pat_view(*pat), *n, p@, nc as nat),
        forall|k: int| 0 <= k < r@.len() ==> (#[trigger] r@[k]).caps@.len() == nc,
    decreases *n, 1int, 0int,
{
    if !local_match_exec(pat, n) {
        let r: Vec<MatchRecord> = Vec::new();
        proof {
            assert(r.deep_view() =~= Seq::<Seq<Option<Seq<usize>>>>::empty());
        }
        return r;
    }
    let ways = match_pats(&pat.children, 0, n, p, 0, nc);
    let base: MatchRecord = match &pat.capture {
        Some(c) => {
            if *c < nc {
                singleton_record(nc, *c, p)
            } else {
                MatchRecord::new_empty(nc)
            }
        },
        None => MatchRecord::new_empty(nc),
    };
    let ghost basev = base.deep_view();
    let ghost wdeep = ways.deep_view();
    let mut out: Vec<MatchRecord> = Vec::new();
    let mut k: usize = 0;
    while k < ways.len()
        invariant
            k <= ways@.len(),
            wdeep == ways.deep_view(),
            basev == base.deep_view(),
            base.caps@.len() == nc,
            forall|j: int| 0 <= j < ways@.len() ==> (#[trigger] ways@[j]).caps@.len() == nc,
            out@.len() == k,
            forall|j: int| 0 <= j < out@.len() ==> (#[trigger] out@[j]).caps@.len() == nc,
            forall|j: int|
                0 <= j < k ==> (#[trigger] out@[j]).deep_view() == asg_merge(basev, wdeep[j]),
        decreases ways@.len() - k,
    {
        proof {
            assert(wdeep[k as int] == ways@[k as int].deep_view());
        }
        let m = merge_records(&base, &ways[k]);
        out.push(m);
        k = k + 1;
    }
    proof {
        assert(out.deep_view() =~= wdeep.map_values(
            |a: Seq<Option<Seq<usize>>>| asg_merge(basev, a),
        ));
    }
    out
}

/// All placements of the child patterns `pats[pi..]` on children of `n` at
/// positions `from` and later; the executable counterpart of
/// [`pats_matches`].
fn match_pats(
    pats: &Vec<ChildPat>,
    pi: usize,
    n: &SynNode,
    p: &NodePath,
    from: usize,
    nc: usize,
) -> (r: Vec<MatchRecord>)
    requires
        pi <= pats@.len(),
        from <= n.children@.len(),
    ensures
        r.deep_view() == pats_matches(
            pats_view(pats@),
            *n,
            p@,
            pi as int,
            from as int,
            nc as nat,
        ),
        forall|k: int| 0 <= k < r@.len() ==> (#[trigger] r@[k]).caps@.len() == nc,
    decreases *n, 0int, pats@.len() - pi,
{
    proof {
        lemma_pats_view_index(pats@);
    }
    let ghost pv = pats_view(pats@);
    if pi == pats.len() {
        let mut r: Vec<MatchRecord> = Vec::new();
        r.push(MatchRecord::new_empty(nc));
        proof {
            assert(r.deep_view() =~= seq![empty_asg(nc as nat)]);
        }
        return r;
    }
    let mut takes: Vec<MatchRecord> = Vec::new();
    proof {
        assert(takes.deep_view() =~= Seq::<Seq<Option<Seq<usize>>>>::empty());
        assert(takes.deep_view() + takes_from(pv, *n, p@, pi as int, from as int, nc as nat)
            =~= takes_from(pv, *n, p@, pi as int, from as int, nc as nat));
    }
    let mut i: usize = from;
    while i < n.children.len()
        invariant
            from <= i <= n.children@.len(),
            pi < pats@.len() <= usize::MAX,
            pv == pats_view(pats@),
            pv.len() == pats@.len(),
            forall|j: int|
                0 <= j < pats@.len() ==> #[trigger] pv[j] == (ChildPatV {
                    optional: pats@[j].optional,
                    pat: pat_view(pats@[j].pat),
                }),
            forall|k: int| 0 <= k < takes@.len() ==> (#[trigger] takes@[k]).caps@.len() == nc,
            takes.deep_view() + takes_from(pv, *n, p@, pi as int, i as int, nc as nat)
                == takes_from(pv, *n, p@, pi as int, from as int, nc as nat),
        decreases n.children@.len() - i,
    {
        let cp = p.child(i);
        let a = match_pat_at(&pats[pi].pat, &n.children[i], &cp, nc);
        let b = match_pats(pats, pi + 1, n, p, i + 1, nc);
        let mut combined = cross_records(&a, &b, nc);
        let ghost tdeep0 = takes.deep_view();
        let ghost cdeep = combined.deep_view();
        takes.append(&mut combined);
        proof {
            assert(takes.deep_view() =~= tdeep0 + cdeep);
            assert(cdeep == cross_merge(
                pat_matches(pv[pi as int].pat, n.children@[i as int], p@.push(i), nc as nat),
                pats_matches(pv, *n, p@, pi as int + 1, i as int + 1, nc as nat),
            ));
            assert(takes_from(pv, *n, p@, pi as int, i as int, nc as nat) == cdeep + takes_from(
                pv,
                *n,
                p@,
                pi as int,
                i as int + 1,
                nc as nat,
            ));
            assert((tdeep0 + cdeep) + takes_from(pv, *n, p@, pi as int, i as int + 1, nc as nat)
                =~= tdeep0 + (cdeep + takes_from(pv, *n, p@, pi as int, i as int + 1, nc as nat)));
        }
        i = i + 1;
    }
    proof {
        assert(takes_from(pv, *n, p@, pi as int, n.children@.len() as int, nc as nat)
            == Seq::<Seq<Option<Seq<usize>>>>::empty());
        assert(takes.deep_view() + Seq::<Seq<Option<Seq<usize>>>>::empty() =~= takes.deep_view());
    }
    if pats[pi].optional && takes.len() == 0 {
        proof {
            assert(takes.deep_view().len() == 0);
        }
        match_pats(pats, pi + 1, n, p, from, nc)
    } else {
        takes
    }
}

/// All matches of `pat` anchored at `n` or below, as the depth bound allows;
/// the executable counterpart of [`query_spec`].
fn query_walk(pat: &NodePat, n: &SynNode, p: &NodePath, d: MatchDepth, nc: usize) -> (r: Vec<
    MatchRecord,
>)
    ensures
        r.deep_view() == query_spec(pat_view(*pat), *n, p@, d, nc as nat),
        forall|k: int| 0 <= k < r@.len() ==> (#[trigger] r@[k]).caps@.len() == nc,
    decreases *n, 2int, 0int,
{
    let mut out = match_pat_at(pat, n, p, nc);
    let dn: Option<MatchDepth> = match d {
        MatchDepth::Root => None,
        MatchDepth::RootOrChildren => Some(MatchDepth::Root),
        MatchDepth::Unbounded => Some(MatchDepth::Unbounded),
    };
    proof {
        assert(dn == depth_next(d));
    }
    match dn {
        None => {
            proof {
                assert(out.deep_view() + Seq::<Seq<Option<Seq<usize>>>>::empty() =~= out.deep_view());
            }
            out
        },
        Some(dnext) => {
            let ghost head = out.deep_view();
            let mut i: usize = 0;
            proof {
                assert(out.deep_view() =~= head + Seq::<Seq<Option<Seq<usize>>>>::empty());
            }
            while i < n.children.len()
                invariant
                    i <= n.children@.len(),
                    Some(dnext) == depth_next(d),
                    forall|k: int| 0 <= k < out@.len() ==> (#[trigger] out@[k]).caps@.len() == nc,
                    out.deep_view() + query_children(
                        pat_view(*pat),
                        *n,
                        p@,
                        i as int,
                        dnext,
                        nc as nat,
                    ) == head + query_children(pat_view(*pat), *n, p@, 0, dnext, nc as nat),
                decreases n.children@.len() - i,
            {
                let cp = p.child(i);
                let mut sub = query_walk(pat, &n.children[i], &cp, dnext, nc);
                let ghost odeep = out.deep_view();
                let ghost sdeep = sub.deep_view();
                out.append(&mut sub);
                proof {
                    assert(out.deep_view() =~= odeep + sdeep);
                    assert(query_children(pat_view(*pat), *n, p@, i as int, dnext, nc as nat)
                        == sdeep + query_children(
                        pat_view(*pat),
                        *n,
                        p@,
                        i as int + 1,
                        dnext,
                        nc as nat,
                    ));
                    assert((odeep + sdeep) + query_children(
                        pat_view(*pat),
                        *n,
                        p@,
                        i as int + 1,
                        dnext,
                        nc as nat,
                    ) =~= odeep + (sdeep + query_children(
                        pat_view(*pat),
                        *n,
                        p@,
                        i as int + 1,
                        dnext,
                        nc as nat,
                    )));
                }
                i = i + 1;
            }
            proof {
                assert(query_children(
                    pat_view(*pat),
                    *n,
                    p@,
                    n.children@.len() as int,
                    dnext,
                    nc as nat,
                ) == Seq::<Seq<Option<Seq<usize>>>>::empty());
                assert(out.deep_view() + Seq::<Seq<Option<Seq<usize>>>>::empty() =~= out.deep_view());
            }
            out
        },
    }
}

/// Match `pat` against the tree rooted at `root` and decode one record per
/// match, in document order. `depth` bounds how deep the pattern may be
/// anchored and `ncaps` is the number of capture slots the pattern declares.
pub fn run_query(pat: &NodePat, root: &SynNode, depth: MatchDepth, ncaps: usize) -> (r: Vec<
    MatchRecord,
>)
    ensures
        r.deep_view() == query_spec(pat_view(*pat), *root, Seq::<usize>::empty(), depth, ncaps as nat),
        forall|k: int| 0 <= k < r@.len() ==> (#[trigger] r@[k]).caps@.len() == ncaps,
{
    let p = NodePath::here();
    query_walk(pat, root, &p, depth, ncaps)
}

} // verus!

verus! {

/// Whether every assignment in `ms` has exactly `nc` slots.
pub open spec fn asgs_len(ms: Seq<Seq<Option<Seq<usize>>>>, nc: nat) -> bool {
    forall|k: int| 0 <= k < ms.len() ==> (#[trigger] ms[k]).len() == nc
}

/// Whether every path bound in `ms` resolves to a node below `root`.
pub open spec fn asgs_valid(root: SynNode, ms: Seq<Seq<Option<Seq<usize>>>>) -> bool {
    forall|k: int, c: int|
        0 <= k < ms.len() && 0 <= c < ms[k].len() && ms[k][c] is Some ==> node_at(
            root,
            (#[trigger] ms[k][c])->0,
        ) is Some
}

/// A capture slot that a pattern is sure to bind in every match: declared on
/// the pattern's own node, or on a child pattern that is not optional.
pub open spec fn binds(pat: PatV, c: usize) -> bool
    decreases pat, 1int, 0int,
{
    pat.capture == Some(c) || binds_from(pat.children, 0, c)
}

/// Whether one of the child patterns `s[pi..]` is not optional and binds `c`.
pub open spec fn binds_from(s: Seq<ChildPatV>, pi: int, c: usize) -> bool
    decreases s, 0int, s.len() - pi,
{
    if pi < 0 || pi >= s.len() {
        false
    } else {
        (!s[pi].optional && binds(s[pi].pat, c)) || binds_from(s, pi + 1, c)
    }
}

proof fn lemma_cross_lens(xs: Seq<Seq<Option<Seq<usize>>>>, ys: Seq<Seq<Option<Seq<usize>>>>, nc: nat)
    requires
        asgs_len(xs, nc),
    ensures
        asgs_len(cross_merge(xs, ys), nc),
    decreases xs.len(),
{
    if xs.len() == 0 {
    } else {
        assert(asgs_len(xs.drop_first(), nc)) by {
            assert forall|k: int| 0 <= k < xs.drop_first().len() implies (#[trigger] xs.drop_first()[k]).len() == nc by {
                assert(xs.drop_first()[k] == xs[k + 1]);
            }
        }
        lemma_cross_lens(xs.drop_first(), ys, nc);
        let row = ys.map_values(|y: Seq<Option<Seq<usize>>>| asg_merge(xs[0], y));
        assert forall|k: int| 0 <= k < cross_merge(xs, ys).len() implies (#[trigger] cross_merge(
            xs,
            ys,
        )[k]).len() == nc by {
            if k < row.len() {
                assert(cross_merge(xs, ys)[k] == asg_merge(xs[0], ys[k]));
            } else {
                assert(cross_merge(xs, ys)[k] == cross_merge(xs.drop_first(), ys)[k - row.len()]);
            }
        }
    }
}

proof fn lemma_pat_lens(pat: PatV, n: SynNode, p: Seq<usize>, nc: nat)
    ensures
        asgs_len(pat_matches(pat, n, p, nc), nc),
{
    if local_match(pat, n) {
        let ways = pats_matches(pat.children, n, p, 0, 0, nc);
        assert forall|k: int| 0 <= k < pat_matches(pat, n, p, nc).len() implies (
        #[trigger] pat_matches(pat, n, p, nc)[k]).len() == nc by {
            assert(pat_matches(pat, n, p, nc)[k] == asg_merge(
                match pat.capture {
                    Some(c) => if (c as int) < nc {
                        empty_asg(nc).update(c as int, Some(p))
                    } else {
                        empty_asg(nc)
                    },
                    None => empty_asg(nc),
                },
                ways[k],
            ));
        }
    }
}

/// Every assignment in the child-pattern matches has `nc` slots.
pub proof fn lemma_pats_lens(
    pats: Seq<ChildPatV>,
    n: SynNode,
    p: Seq<usize>,
    pi: int,
    from: int,
    nc: nat,
)
    ensures
        asgs_len(pats_matches(pats, n, p, pi, from, nc), nc),
    decreases n, 1int, pats.len() - pi, 1int, 0int,
{
    if pi < 0 || pi >= pats.len() {
    } else {
        lemma_takes_lens(pats, n, p, pi, from, nc);
        if pats[pi].optional && takes_from(pats, n, p, pi, from, nc).len() == 0 {
            lemma_pats_lens(pats, n, p, pi + 1, from, nc);
        }
    }
}

proof fn lemma_takes_lens(
    pats: Seq<ChildPatV>,
    n: SynNode,
    p: Seq<usize>,
    pi: int,
    from: int,
    nc: nat,
)
    ensures
        asgs_len(takes_from(pats, n, p, pi, from, nc), nc),
    decreases n, 1int, pats.len() - pi, 0int, n.children@.len() - from,
{
    if pi < 0 || pi >= pats.len() || from < 0 || from >= n.children@.len() {
    } else {
        let a = pat_matches(pats[pi].pat, n.children@[from], p.push(from as usize), nc);
        let b = pats_matches(pats, n, p, pi + 1, from + 1, nc);
        lemma_pat_lens(pats[pi].pat, n.children@[from], p.push(from as usize), nc);
        lemma_cross_lens(a, b, nc);
        lemma_takes_lens(pats, n, p, pi, from + 1, nc);
        let cm = cross_merge(a, b);
        let rest = takes_from(pats, n, p, pi, from + 1, nc);
        assert forall|k: int| 0 <= k < takes_from(pats, n, p, pi, from, nc).len() implies (
        #[trigger] takes_from(pats, n, p, pi, from, nc)[k]).len() == nc by {
            if k < cm.len() {
                assert(takes_from(pats, n, p, pi, from, nc)[k] == cm[k]);
            } else {
                assert(takes_from(pats, n, p, pi, from, nc)[k] == rest[k - cm.len()]);
            }
        }
    }
}

proof fn lemma_cross_binds(
    xs: Seq<Seq<Option<Seq<usize>>>>,
    ys: Seq<Seq<Option<Seq<usize>>>>,
    nc: nat,
    c: usize,
    from_left: bool,
)
    requires
        asgs_len(xs, nc),
        (c as int) < nc,
        from_left ==> forall|k: int| 0 <= k < xs.len() ==> (#[trigger] xs[k])[c as int] is Some,
        !from_left ==> forall|k: int| 0 <= k < ys.len() ==> (#[trigger] ys[k])[c as int] is Some,
    ensures
        forall|k: int|
            0 <= k < cross_merge(xs, ys).len() ==> (#[trigger] cross_merge(xs, ys)[k])[c as int] is Some,
    decreases xs.len(),
{
    if xs.len() == 0 {
    } else {
        assert(asgs_len(xs.drop_first(), nc)) by {
            assert forall|k: int| 0 <= k < xs.drop_first().len() implies (#[trigger] xs.drop_first()[k]).len() == nc by {
                assert(xs.drop_first()[k] == xs[k + 1]);
            }
        }
        if from_left {
            assert forall|k: int| 0 <= k < xs.drop_first().len() implies (#[trigger] xs.drop_first()[k])[c as int] is Some by {
                assert(xs.drop_first()[k] == xs[k + 1]);
            }
        }
        lemma_cross_binds(xs.drop_first(), ys, nc, c, from_left);
        let row = ys.map_values(|y: Seq<Option<Seq<usize>>>| asg_merge(xs[0], y));
        assert forall|k: int| 0 <= k < cross_merge(xs, ys).len() implies (#[trigger] cross_merge(
            xs,
            ys,
        )[k])[c as int] is Some by {
            if k < row.len() {
                assert(cross_merge(xs, ys)[k] == asg_merge(xs[0], ys[k]));
                if from_left {
                    assert(xs[0][c as int] is Some);
                }
            } else {
                assert(cross_merge(xs, ys)[k] == cross_merge(xs.drop_first(), ys)[k - row.len()]);
            }
        }
    }
}

/// In every match of `pat`, a slot that `binds` names is bound.
pub proof fn lemma_pat_binds(pat: PatV, n: SynNode, p: Seq<usize>, nc: nat, c: usize)
    requires
        binds(pat, c),
        (c as int) < nc,
    ensures
        forall|k: int|
            0 <= k < pat_matches(pat, n, p, nc).len() ==> (#[trigger] pat_matches(pat, n, p, nc)[k])[c as int] is Some,
    decreases n, 2int, 0int, 0int, 0int,
{
    if local_match(pat, n) {
        let base = match pat.capture {
            Some(cc) => if (cc as int) < nc {
                empty_asg(nc).update(cc as int, Some(p))
            } else {
                empty_asg(nc)
            },
            None => empty_asg(nc),
        };
        let ways = pats_matches(pat.children, n, p, 0, 0, nc);
        if pat.capture == Some(c) {
            assert forall|k: int| 0 <= k < pat_matches(pat, n, p, nc).len() implies (
            #[trigger] pat_matches(pat, n, p, nc)[k])[c as int] is Some by {
                assert(pat_matches(pat, n, p, nc)[k] == asg_merge(base, ways[k]));
                assert(base[c as int] is Some);
            }
        } else {
            assert(binds_from(pat.children, 0, c));
            lemma_pats_binds(pat.children, n, p, 0, 0, nc, c);
            assert forall|k: int| 0 <= k < pat_matches(pat, n, p, nc).len() implies (
            #[trigger] pat_matches(pat, n, p, nc)[k])[c as int] is Some by {
                assert(pat_matches(pat, n, p, nc)[k] == asg_merge(base, ways[k]));
                assert(ways[k][c as int] is Some);
            }
        }
    }
}

proof fn lemma_pats_binds(
    pats: Seq<ChildPatV>,
    n: SynNode,
    p: Seq<usize>,
    pi: int,
    from: int,
    nc: nat,
    c: usize,
)
    requires
        0 <= pi,
        binds_from(pats, pi, c),
        (c as int) < nc,
    ensures
        forall|k: int|
            0 <= k < pats_matches(pats, n, p, pi, from, nc).len() ==> (#[trigger] pats_matches(
                pats,
                n,
                p,
                pi,
                from,
                nc,
            )[k])[c as int] is Some,
    decreases n, 1int, pats.len() - pi, 1int, 0int,
{
    assert(pi < pats.len());
    let takes = takes_from(pats, n, p, pi, from, nc);
    if pats[pi].optional && takes.len() == 0 {
        assert(binds_from(pats, pi + 1, c));
        lemma_pats_binds(pats, n, p, pi + 1, from, nc, c);
    } else {
        lemma_takes_binds(pats, n, p, pi, from, nc, c);
    }
}

proof fn lemma_takes_binds(
    pats: Seq<ChildPatV>,
    n: SynNode,
    p: Seq<usize>,
    pi: int,
    from: int,
    nc: nat,
    c: usize,
)
    requires
        0 <= pi,
        binds_from(pats, pi, c),
        (c as int) < nc,
    ensures
        forall|k: int|
            0 <= k < takes_from(pats, n, p, pi, from, nc).len() ==> (#[trigger] takes_from(
                pats,
                n,
                p,
                pi,
                from,
                nc,
            )[k])[c as int] is Some,
    decreases n, 1int, pats.len() - pi, 0int, n.children@.len() - from,
{
    assert(pi < pats.len());
    if from < 0 || from >= n.children@.len() {
    } else {
        let a = pat_matches(pats[pi].pat, n.children@[from], p.push(from as usize), nc);
        let b = pats_matches(pats, n, p, pi + 1, from + 1, nc);
        lemma_pat_lens(pats[pi].pat, n.children@[from], p.push(from as usize), nc);
        if !pats[pi].optional && binds(pats[pi].pat, c) {
            lemma_pat_binds(pats[pi].pat, n.children@[from], p.push(from as usize), nc, c);
            lemma_cross_binds(a, b, nc, c, true);
        } else {
            assert(binds_from(pats, pi + 1, c));
            lemma_pats_binds(pats, n, p, pi + 1, from + 1, nc, c);
            lemma_cross_binds(a, b, nc, c, false);
        }
        lemma_takes_binds(pats, n, p, pi, from + 1, nc, c);
        let cm = cross_merge(a, b);
        let rest = takes_from(pats, n, p, pi, from + 1, nc);
        assert forall|k: int| 0 <= k < takes_from(pats, n, p, pi, from, nc).len() implies (
        #[trigger] takes_from(pats, n, p, pi, from, nc)[k])[c as int] is Some by {
            if k < cm.len() {
                assert(takes_from(pats, n, p, pi, from, nc)[k] == cm[k]);
            } else {
                assert(takes_from(pats, n, p, pi, from, nc)[k] == rest[k - cm.len()]);
            }
        }
    }
}

/// In every match that `query_spec` yields, a slot that `binds` names is
/// bound.
pub proof fn lemma_query_binds(pat: PatV, n: SynNode, p: Seq<usize>, d: MatchDepth, nc: nat, c: usize)
    requires
        binds(pat, c),
        (c as int) < nc,
    ensures
        forall|k: int|
            0 <= k < query_spec(pat, n, p, d, nc).len() ==> (#[trigger] query_spec(pat, n, p, d, nc)[k])[c as int] is Some,
    decreases n, 4int, 0int, 0int, 0int,
{
    lemma_pat_binds(pat, n, p, nc, c);
    let pm = pat_matches(pat, n, p, nc);
    match depth_next(d) {
        None => {
            assert forall|k: int| 0 <= k < query_spec(pat, n, p, d, nc).len() implies (
            #[trigger] query_spec(pat, n, p, d, nc)[k])[c as int] is Some by {
                assert(query_spec(pat, n, p, d, nc)[k] == pm[k]);
            }
        },
        Some(dn) => {
            lemma_query_children_binds(pat, n, p, 0, dn, nc, c);
            let qc = query_children(pat, n, p, 0, dn, nc);
            assert forall|k: int| 0 <= k < query_spec(pat, n, p, d, nc).len() implies (
            #[trigger] query_spec(pat, n, p, d, nc)[k])[c as int] is Some by {
                if k < pm.len() {
                    assert(query_spec(pat, n, p, d, nc)[k] == pm[k]);
                } else {
                    assert(query_spec(pat, n, p, d, nc)[k] == qc[k - pm.len()]);
                }
            }
        },
    }
}

proof fn lemma_query_children_binds(
    pat: PatV,
    n: SynNode,
    p: Seq<usize>,
    from: int,
    d: MatchDepth,
    nc: nat,
    c: usize,
)
    requires
        binds(pat, c),
        (c as int) < nc,
    ensures
        forall|k: int|
            0 <= k < query_children(pat, n, p, from, d, nc).len() ==> (#[trigger] query_children(
                pat,
                n,
                p,
                from,
                d,
                nc,
            )[k])[c as int] is Some,
    decreases n, 3int, 0int, 0int, n.children@.len() - from,
{
    if from < 0 || from >= n.children@.len() {
    } else {
        lemma_query_binds(pat, n.children@[from], p.push(from as usize), d, nc, c);
        lemma_query_children_binds(pat, n, p, from + 1, d, nc, c);
        let head = query_spec(pat, n.children@[from], p.push(from as usize), d, nc);
        let rest = query_children(pat, n, p, from + 1, d, nc);
        assert forall|k: int| 0 <= k < query_children(pat, n, p, from, d, nc).len() implies (
        #[trigger] query_children(pat, n, p, from, d, nc)[k])[c as int] is Some by {
            if k < head.len() {
                assert(query_children(pat, n, p, from, d, nc)[k] == head[k]);
            } else {
                assert(query_children(pat, n, p, from, d, nc)[k] == rest[k - head.len()]);
            }
        }
    }
}

} // verus!


verus! {

proof fn lemma_cross_valid(
    root: SynNode,
    xs: Seq<Seq<Option<Seq<usize>>>>,
    ys: Seq<Seq<Option<Seq<usize>>>>,
    nc: nat,
)
    requires
        asgs_len(xs, nc),
        asgs_len(ys, nc),
        asgs_valid(root, xs),
        asgs_valid(root, ys),
    ensures
        asgs_valid(root, cross_merge(xs, ys)),
    decreases xs.len(),
{
    if xs.len() == 0 {
    } else {
        assert(asgs_len(xs.drop_first(), nc) && asgs_valid(root, xs.drop_first())) by {
            assert forall|k: int| 0 <= k < xs.drop_first().len() implies (#[trigger] xs.drop_first()[k]).len() == nc by {
                assert(xs.drop_first()[k] == xs[k + 1]);
            }
            assert forall|k: int, c: int|
                0 <= k < xs.drop_first().len() && 0 <= c < xs.drop_first()[k].len()
                    && xs.drop_first()[k][c] is Some implies node_at(
                root,
                (#[trigger] xs.drop_first()[k][c])->0,
            ) is Some by {
                assert(xs.drop_first()[k] == xs[k + 1]);
            }
        }
        lemma_cross_valid(root, xs.drop_first(), ys, nc);
        let row = ys.map_values(|y: Seq<Option<Seq<usize>>>| asg_merge(xs[0], y));
        assert forall|k: int, c: int|
            0 <= k < cross_merge(xs, ys).len() && 0 <= c < cross_merge(xs, ys)[k].len()
                && cross_merge(xs, ys)[k][c] is Some implies node_at(
            root,
            (#[trigger] cross_merge(xs, ys)[k][c])->0,
        ) is Some by {
            if k < row.len() {
                assert(cross_merge(xs, ys)[k] == asg_merge(xs[0], ys[k]));
                assert(xs[0].len() == nc && ys[k].len() == nc);
                if xs[0][c] is Some {
                    assert(cross_merge(xs, ys)[k][c] == xs[0][c]);
                } else {
                    assert(cross_merge(xs, ys)[k][c] == ys[k][c]);
                }
            } else {
                assert(cross_merge(xs, ys)[k] == cross_merge(xs.drop_first(), ys)[k - row.len()]);
            }
        }
    }
}

/// Every path bound in a match of `pat` at `n` resolves below `root`,
/// provided `n` itself sits at path `p` below `root`.
pub proof fn lemma_pat_valid(pat: PatV, n: SynNode, p: Seq<usize>, root: SynNode, nc: nat)
    requires
        node_at(root, p) == Some(n),
    ensures
        asgs_valid(root, pat_matches(pat, n, p, nc)),
    decreases n, 2int, 0int, 0int, 0int,
{
    if local_match(pat, n) {
        let base = match pat.capture {
            Some(cc) => if (cc as int) < nc {
                empty_asg(nc).update(cc as int, Some(p))
            } else {
                empty_asg(nc)
            },
            None => empty_asg(nc),
        };
        let ways = pats_matches(pat.children, n, p, 0, 0, nc);
        lemma_pats_valid(pat.children, n, p, root, 0, 0, nc);
        lemma_pats_lens(pat.children, n, p, 0, 0, nc);
        assert forall|k: int, c: int|
            0 <= k < pat_matches(pat, n, p, nc).len() && 0 <= c < pat_matches(pat, n, p, nc)[k].len()
                && pat_matches(pat, n, p, nc)[k][c] is Some implies node_at(
            root,
            (#[trigger] pat_matches(pat, n, p, nc)[k][c])->0,
        ) is Some by {
            assert(pat_matches(pat, n, p, nc)[k] == asg_merge(base, ways[k]));
            assert(ways[k].len() == nc);
            if base[c] is Some {
                assert(pat_matches(pat, n, p, nc)[k][c] == base[c]);
                assert(base[c]->0 == p);
            } else {
                assert(pat_matches(pat, n, p, nc)[k][c] == ways[k][c]);
            }
        }
    }
}

proof fn lemma_pats_valid(
    pats: Seq<ChildPatV>,
    n: SynNode,
    p: Seq<usize>,
    root: SynNode,
    pi: int,
    from: int,
    nc: nat,
)
    requires
        node_at(root, p) == Some(n),
    ensures
        asgs_valid(root, pats_matches(pats, n, p, pi, from, nc)),
    decreases n, 1int, pats.len() - pi, 1int, 0int,
{
    if pi < 0 || pi >= pats.len() {
    } else {
        lemma_takes_valid(pats, n, p, root, pi, from, nc);
        if pats[pi].optional && takes_from(pats, n, p, pi, from, nc).len() == 0 {
            lemma_pats_valid(pats, n, p, root, pi + 1, from, nc);
        }
    }
}

proof fn lemma_takes_valid(
    pats: Seq<ChildPatV>,
    n: SynNode,
    p: Seq<usize>,
    root: SynNode,
    pi: int,
    from: int,
    nc: nat,
)
    requires
        node_at(root, p) == Some(n),
    ensures
        asgs_valid(root, takes_from(pats, n, p, pi, from, nc)),
    decreases n, 1int, pats.len() - pi, 0int, n.children@.len() - from,
{
    if pi < 0 || pi >= pats.len() || from < 0 || from >= n.children@.len() {
    } else {
        let a = pat_matches(pats[pi].pat, n.children@[from], p.push(from as usize), nc);
        let b = pats_matches(pats, n, p, pi + 1, from + 1, nc);
        assert(n.children@.len() <= usize::MAX) by {
            assert(n.children.len() == n.children@.len());
        }
        assert((from as usize) as int == from);
        crate::tree::lemma_node_at_push(root, p, n, from as usize);
        lemma_pat_valid(pats[pi].pat, n.children@[from], p.push(from as usize), root, nc);
        lemma_pats_valid(pats, n, p, root, pi + 1, from + 1, nc);
        lemma_pat_lens(pats[pi].pat, n.children@[from], p.push(from as usize), nc);
        lemma_pats_lens(pats, n, p, pi + 1, from + 1, nc);
        lemma_cross_valid(root, a, b, nc);
        lemma_takes_valid(pats, n, p, root, pi, from + 1, nc);
        let cm = cross_merge(a, b);
        let rest = takes_from(pats, n, p, pi, from + 1, nc);
        assert forall|k: int, c: int|
            0 <= k < takes_from(pats, n, p, pi, from, nc).len() && 0 <= c < takes_from(
                pats,
                n,
                p,
                pi,
                from,
                nc,
            )[k].len() && takes_from(pats, n, p, pi, from, nc)[k][c] is Some implies node_at(
            root,
            (#[trigger] takes_from(pats, n, p, pi, from, nc)[k][c])->0,
        ) is Some by {
            if k < cm.len() {
                assert(takes_from(pats, n, p, pi, from, nc)[k] == cm[k]);
            } else {
                assert(takes_from(pats, n, p, pi, from, nc)[k] == rest[k - cm.len()]);
            }
        }
    }
}

/// Every assignment that `query_spec` yields has `nc` slots, and every path
/// bound in it resolves below `root`.
pub proof fn lemma_query_valid(pat: PatV, n: SynNode, p: Seq<usize>, root: SynNode, d: MatchDepth, nc: nat)
    requires
        node_at(root, p) == Some(n),
    ensures
        asgs_valid(root, query_spec(pat, n, p, d, nc)),
        asgs_len(query_spec(pat, n, p, d, nc), nc),
    decreases n, 4int, 0int, 0int, 0int,
{
    lemma_pat_valid(pat, n, p, root, nc);
    lemma_pat_lens(pat, n, p, nc);
    let pm = pat_matches(pat, n, p, nc);
    let q = query_spec(pat, n, p, d, nc);
    match depth_next(d) {
        None => {
            assert forall|k: int| 0 <= k < q.len() implies (#[trigger] q[k]).len() == nc by {
                assert(q[k] == pm[k]);
            }
            assert forall|k: int, c: int|
                0 <= k < q.len() && 0 <= c < q[k].len() && q[k][c] is Some implies node_at(
                root,
                (#[trigger] q[k][c])->0,
            ) is Some by {
                assert(q[k] == pm[k]);
            }
        },
        Some(dn) => {
            lemma_query_children_valid(pat, n, p, root, 0, dn, nc);
            let qc = query_children(pat, n, p, 0, dn, nc);
            assert forall|k: int| 0 <= k < q.len() implies (#[trigger] q[k]).len() == nc by {
                if k < pm.len() {
                    assert(q[k] == pm[k]);
                } else {
                    assert(q[k] == qc[k - pm.len()]);
                }
            }
            assert forall|k: int, c: int|
                0 <= k < q.len() && 0 <= c < q[k].len() && q[k][c] is Some implies node_at(
                root,
                (#[trigger] q[k][c])->0,
            ) is Some by {
                if k < pm.len() {
                    assert(q[k] == pm[k]);
                } else {
                    assert(q[k] == qc[k - pm.len()]);
                }
            }
        },
    }
}

proof fn lemma_query_children_valid(
    pat: PatV,
    n: SynNode,
    p: Seq<usize>,
    root: SynNode,
    from: int,
    d: MatchDepth,
    nc: nat,
)
    requires
        node_at(root, p) == Some(n),
    ensures
        asgs_valid(root, query_children(pat, n, p, from, d, nc)),
        asgs_len(query_children(pat, n, p, from, d, nc), nc),
    decreases n, 3int, 0int, 0int, n.children@.len() - from,
{
    if from < 0 || from >= n.children@.len() {
    } else {
        assert(n.children@.len() <= usize::MAX) by {
            assert(n.children.len() == n.children@.len());
        }
        assert((from as usize) as int == from);
        crate::tree::lemma_node_at_push(root, p, n, from as usize);
        lemma_query_valid(pat, n.children@[from], p.push(from as usize), root, d, nc);
        lemma_query_children_valid(pat, n, p, root, from + 1, d, nc);
        let head = query_spec(pat, n.children@[from], p.push(from as usize), d, nc);
        let rest = query_children(pat, n, p, from + 1, d, nc);
        let q = query_children(pat, n, p, from, d, nc);
        assert forall|k: int| 0 <= k < q.len() implies (#[trigger] q[k]).len() == nc by {
            if k < head.len() {
                assert(q[k] == head[k]);
            } else {
                assert(q[k] == rest[k - head.len()]);
            }
        }
        assert forall|k: int, c: int|
            0 <= k < q.len() && 0 <= c < q[k].len() && q[k][c] is Some implies node_at(
            root,
            (#[trigger] q[k][c])->0,
        ) is Some by {
            if k < head.len() {
                assert(q[k] == head[k]);
            } else {
                assert(q[k] == rest[k - head.len()]);
            }
        }
    }
}

} // verus!

verus! {

/// The node that an assignment binds in slot `c`, or the query root where
/// the slot is absent or out of range. For the patterns the checks run, the
/// fallback never happens: see [`lemma_query_binds`] and
/// [`lemma_query_valid`].
pub open spec fn cap_node(root: SynNode, a: Seq<Option<Seq<usize>>>, c: int) -> SynNode {
    if 0 <= c < a.len() && a[c] is Some && node_at(root, a[c]->0) is Some {
        node_at(root, a[c]->0)->0
    } else {
        root
    }
}

/// Resolve a path below `root`.
pub fn node_at_path<'a>(root: &'a SynNode, p: &NodePath) -> (r: &'a SynNode)
    requires
        node_at(*root, p@) is Some,
    ensures
        Some(*r) == node_at(*root, p@),
{
    proof {
        assert(p@.skip(0) =~= p@);
    }
    let mut cur: &SynNode = root;
    let mut i: usize = 0;
    while i < p.steps.len()
        invariant
            i <= p.steps@.len(),
            node_at(*cur, p@.skip(i as int)) == node_at(*root, p@),
            node_at(*root, p@) is Some,
        decreases p.steps@.len() - i,
    {
        proof {
            assert(p@.skip(i as int)[0] == p@[i as int]);
            assert(p@.skip(i as int).drop_first() =~= p@.skip(i as int + 1));
        }
        let step = p.steps[i];
        proof {
            assert((step as int) < cur.children@.len());
        }
        cur = &cur.children[step];
        i = i + 1;
    }
    proof {
        assert(p@.skip(p.steps@.len() as int) =~= Seq::<usize>::empty());
    }
    cur
}

} // verus!

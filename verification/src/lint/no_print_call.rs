//! Disallowed-call check: calls to the raw `print` primitive, at any nesting
//! depth, each get their own diagnostic.

use vstd::prelude::*;

use crate::diag::{Diagnostic, DiagnosticV, Label, LabelV, Severity};
use crate::query_struct::{
    asgs_len, asgs_valid, binds, binds_from, cap_node, lemma_query_binds, lemma_query_valid,
    node_at_path, pat_view, pats_view, query_spec, run_query, ChildPat, ChildPatV, MatchDepth,
    NodePat, PatV,
};
use crate::tree::{full_span, node_at, wf_node, SynNode};

verus! {

/// The pattern behind the check: a call whose callee is a plain identifier
/// and that provides an argument list, even an empty one.
pub open spec fn print_call_pattern() -> PatV {
    PatV {
        kind: Some("call"@),
        field: None,
        capture: None,
        children: seq![
            ChildPatV {
                optional: false,
                pat: PatV {
                    kind: Some("identifier"@),
                    field: None,
                    capture: Some(0),
                    children: Seq::empty(),
                },
            },
            ChildPatV {
                optional: false,
                pat: PatV {
                    kind: Some("arguments"@),
                    field: None,
                    capture: None,
                    children: Seq::empty(),
                },
            },
        ],
    }
}

/// The diagnostic for one offending call site.
pub open spec fn spec_print_diag(callee: SynNode) -> DiagnosticV {
    DiagnosticV {
        severity: Severity::Warning,
        code: "no-print"@,
        message: "calling print is discouraged, use a custom logger"@,
        labels: seq![
            LabelV {
                span: full_span(callee),
                text: Some("What were you thinking?!"@),
                primary: false,
            },
        ],
        help: None,
        url: None,
    }
}

/// The diagnostics for the matches `ms[k..]`: one per match whose captured
/// callee spells `print`.
pub open spec fn spec_print_diags(
    root: SynNode,
    ms: Seq<Seq<Option<Seq<usize>>>>,
    k: int,
) -> Seq<DiagnosticV>
    decreases ms.len() - k,
{
    if k < 0 || k >= ms.len() {
        Seq::empty()
    } else {
        (if cap_node(root, ms[k], 0).text@ == "print"@ {
            seq![spec_print_diag(cap_node(root, ms[k], 0))]
        } else {
            Seq::empty()
        }) + spec_print_diags(root, ms, k + 1)
    }
}

/// What the check returns: one diagnostic per call to the identifier `print`
/// with an argument list, anywhere in the tree, in document order.
pub open spec fn spec_check_no_print_call(root: SynNode) -> Seq<DiagnosticV> {
    spec_print_diags(
        root,
        query_spec(print_call_pattern(), root, Seq::<usize>::empty(), MatchDepth::Unbounded, 1),
        0,
    )
}

/// Build the executable pattern and relate it to its specification image.
fn build_print_call_pattern() -> (r: NodePat)
    ensures
        pat_view(r) == print_call_pattern(),
{
    let callee = ChildPat {
        optional: false,
        pat: NodePat {
            kind: Some("identifier".to_owned()),
            field: None,
            capture: Some(0),
            children: Vec::new(),
        },
    };
    let args = ChildPat {
        optional: false,
        pat: NodePat {
            kind: Some("arguments".to_owned()),
            field: None,
            capture: None,
            children: Vec::new(),
        },
    };
    let mut children: Vec<ChildPat> = Vec::new();
    children.push(callee);
    children.push(args);
    let r = NodePat { kind: Some("call".to_owned()), field: None, capture: None, children };
    proof {
        let cs = r.children@;
        let cs1 = cs.drop_first();
        assert(cs.len() == 2 && cs1.len() == 1);
        assert(cs1[0] == cs[1]);
        assert(cs1.drop_first() =~= Seq::<ChildPat>::empty());
        assert(pats_view(cs1.drop_first()) =~= Seq::<ChildPatV>::empty());
        assert(pats_view(cs[0].pat.children@) =~= Seq::<ChildPatV>::empty());
        assert(pats_view(cs[1].pat.children@) =~= Seq::<ChildPatV>::empty());
        assert(pats_view(cs1) == seq![
            ChildPatV { optional: cs1[0].optional, pat: pat_view(cs1[0].pat) },
        ] + pats_view(cs1.drop_first()));
        assert(pats_view(cs) == seq![
            ChildPatV { optional: cs[0].optional, pat: pat_view(cs[0].pat) },
        ] + pats_view(cs1));
        assert(pat_view(r).kind =~~= print_call_pattern().kind);
        assert(pat_view(r).field =~~= print_call_pattern().field);
        assert(pat_view(r).capture =~~= print_call_pattern().capture);
        assert(pat_view(r).children =~~= print_call_pattern().children);
        assert(pat_view(r) =~~= print_call_pattern());
    }
    r
}

/// Report every call to the identifier `print` that provides an argument
/// list, regardless of how deeply it is nested: one warning per call site,
/// labeled at the callee.
pub fn check_no_print_call(root: &SynNode) -> (r: Vec<Diagnostic>)
    requires
        wf_node(*root),
    ensures
        r.deep_view() == spec_check_no_print_call(*root),
{
    let pat = build_print_call_pattern();
    let ghost pv = print_call_pattern();
    proof {
        assert(binds(pv, 0)) by {
            assert(binds(pv.children[0].pat, 0));
            assert(binds_from(pv.children, 0, 0));
        }
        assert(node_at(*root, Seq::<usize>::empty()) == Some(*root));
        lemma_query_binds(pv, *root, Seq::<usize>::empty(), MatchDepth::Unbounded, 1, 0);
        lemma_query_valid(pv, *root, Seq::<usize>::empty(), *root, MatchDepth::Unbounded, 1);
    }
    let recs = run_query(&pat, root, MatchDepth::Unbounded, 1);
    let ghost ms = query_spec(pv, *root, Seq::<usize>::empty(), MatchDepth::Unbounded, 1);
    let mut out: Vec<Diagnostic> = Vec::new();
    let mut k: usize = 0;
    while k < recs.len()
        invariant
            k <= recs@.len(),
            wf_node(*root),
            recs.deep_view() == ms,
            ms == query_spec(pv, *root, Seq::<usize>::empty(), MatchDepth::Unbounded, 1),
            pv == print_call_pattern(),
            forall|j: int| 0 <= j < recs@.len() ==> (#[trigger] recs@[j]).caps@.len() == 1,
            forall|j: int| 0 <= j < ms.len() ==> (#[trigger] ms[j])[0] is Some,
            asgs_valid(*root, ms),
            asgs_len(ms, 1),
            out.deep_view() + spec_print_diags(*root, ms, k as int) == spec_print_diags(
                *root,
                ms,
                0,
            ),
        decreases recs@.len() - k,
    {
        let rec = &recs[k];
        proof {
            assert(rec.deep_view() == ms[k as int]);
            assert(ms[k as int][0] is Some);
            assert(node_at(*root, ms[k as int][0]->0) is Some);
        }
        let pc = rec.required(0);
        let callee = node_at_path(root, pc);
        proof {
            crate::tree::lemma_node_at_wf(*root, pc@, *callee);
            assert(*callee == cap_node(*root, ms[k as int], 0));
        }
        let ghost odeep = out.deep_view();
        if callee.text_is("print") {
            let mut labels: Vec<Label> = Vec::new();
            labels.push(
                Label {
                    span: callee.to_source_span(),
                    text: Some("What were you thinking?!".to_owned()),
                    primary: false,
                },
            );
            let d = Diagnostic {
                severity: Severity::Warning,
                code: "no-print".to_owned(),
                message: "calling print is discouraged, use a custom logger".to_owned(),
                labels,
                help: None,
                url: None,
            };
            proof {
                assert(d.deep_view().labels =~= spec_print_diag(*callee).labels);
                assert(d.deep_view() =~~= spec_print_diag(*callee));
            }
            out.push(d);
        }
        proof {
            assert(spec_print_diags(*root, ms, k as int) == (if cap_node(*root, ms[k as int], 0).text@
                == "print"@ {
                seq![spec_print_diag(cap_node(*root, ms[k as int], 0))]
            } else {
                Seq::<DiagnosticV>::empty()
            }) + spec_print_diags(*root, ms, k as int + 1));
            assert(out.deep_view() + spec_print_diags(*root, ms, k as int + 1) =~= spec_print_diags(
                *root,
                ms,
                0,
            ));
        }
        k = k + 1;
    }
    proof {
        assert(spec_print_diags(*root, ms, recs@.len() as int) =~= Seq::<DiagnosticV>::empty());
        assert(out.deep_view() =~= spec_check_no_print_call(*root));
    }
    out
}

} // verus!

verus! {

/// One assignment per `arguments` child of `n` at positions `j` and later,
/// each binding the callee at path `q`.
pub open spec fn args_asgs(n: SynNode, q: Seq<usize>, j: int) -> Seq<Seq<Option<Seq<usize>>>>
    decreases n.children@.len() - j,
{
    if j < 0 || j >= n.children@.len() {
        Seq::empty()
    } else {
        (if n.children@[j].named && n.children@[j].kind@ == "arguments"@ {
            seq![seq![Some(q)]]
        } else {
            Seq::<Seq<Option<Seq<usize>>>>::empty()
        }) + args_asgs(n, q, j + 1)
    }
}

/// One assignment per pair of an identifier child at position `i` or later
/// and an `arguments` child after it, binding the identifier's path.
pub open spec fn callee_asgs(n: SynNode, p: Seq<usize>, i: int) -> Seq<Seq<Option<Seq<usize>>>>
    decreases n.children@.len() - i,
{
    if i < 0 || i >= n.children@.len() {
        Seq::empty()
    } else {
        (if n.children@[i].named && n.children@[i].kind@ == "identifier"@ {
            args_asgs(n, p.push(i as usize), i + 1)
        } else {
            Seq::<Seq<Option<Seq<usize>>>>::empty()
        }) + callee_asgs(n, p, i + 1)
    }
}

/// All call-pattern matches in the subtree of `n`, whose path is `p`, in
/// document order: for each call node, one per identifier-arguments pair.
pub open spec fn call_site_asgs(n: SynNode, p: Seq<usize>) -> Seq<Seq<Option<Seq<usize>>>>
    decreases n, 1int, 0int,
{
    (if n.named && n.kind@ == "call"@ {
        callee_asgs(n, p, 0)
    } else {
        Seq::<Seq<Option<Seq<usize>>>>::empty()
    }) + call_site_walk(n, p, 0)
}

/// The call-pattern matches inside the subtrees of `n`'s children at
/// positions `from` and later.
pub open spec fn call_site_walk(n: SynNode, p: Seq<usize>, from: int) -> Seq<
    Seq<Option<Seq<usize>>>,
>
    decreases n, 0int, n.children@.len() - from,
{
    if from < 0 || from >= n.children@.len() {
        Seq::empty()
    } else {
        call_site_asgs(n.children@[from], p.push(from as usize)) + call_site_walk(n, p, from + 1)
    }
}

proof fn lemma_args_takes(n: SynNode, p: Seq<usize>, q: Seq<usize>, j: int)
    requires
        0 <= j <= n.children@.len(),
        n.children@.len() <= usize::MAX,
    ensures
        crate::query_struct::takes_from(print_call_pattern().children, n, p, 1, j, 1).map_values(
            |a: Seq<Option<Seq<usize>>>| crate::query_struct::asg_merge(
                crate::query_struct::empty_asg(1).update(0, Some(q)),
                a,
            ),
        ) == args_asgs(n, q, j),
    decreases n.children@.len() - j,
{
    let pats = print_call_pattern().children;
    let base = crate::query_struct::empty_asg(1).update(0, Some(q));
    let f = |a: Seq<Option<Seq<usize>>>| crate::query_struct::asg_merge(base, a);
    if j >= n.children@.len() {
        assert(crate::query_struct::takes_from(pats, n, p, 1, j, 1).map_values(f) =~= args_asgs(
            n,
            q,
            j,
        ));
    } else {
        lemma_args_takes(n, p, q, j + 1);
        let c = n.children@[j];
        assert((j as usize) as int == j);
        let pj = p.push(j as usize);
        let ap = pats[1].pat;
        let a = crate::query_struct::pat_matches(ap, c, pj, 1);
        let b = crate::query_struct::pats_matches(pats, n, p, 2, j + 1, 1);
        assert(b == seq![crate::query_struct::empty_asg(1)]);
        let takes = crate::query_struct::takes_from(pats, n, p, 1, j, 1);
        let rest = crate::query_struct::takes_from(pats, n, p, 1, j + 1, 1);
        if c.named && c.kind@ == "arguments"@ {
            assert(crate::query_struct::local_match(ap, c));
            assert(crate::query_struct::pats_matches(ap.children, c, pj, 0, 0, 1) == seq![
                crate::query_struct::empty_asg(1),
            ]);
            assert(a.len() == 1);
            assert(a[0] == crate::query_struct::asg_merge(
                crate::query_struct::empty_asg(1),
                crate::query_struct::empty_asg(1),
            ));
            assert(a[0] =~= crate::query_struct::empty_asg(1));
            let cm = crate::query_struct::cross_merge(a, b);
            assert(cm == b.map_values(
                |y: Seq<Option<Seq<usize>>>| crate::query_struct::asg_merge(a[0], y),
            ) + crate::query_struct::cross_merge(a.drop_first(), b));
            assert(a.drop_first().len() == 0);
            assert(crate::query_struct::cross_merge(a.drop_first(), b)
                =~= Seq::<Seq<Option<Seq<usize>>>>::empty());
            assert(cm.len() == 1);
            assert(cm[0] == crate::query_struct::asg_merge(
                a[0],
                crate::query_struct::empty_asg(1),
            ));
            assert(cm[0] =~= crate::query_struct::empty_asg(1));
            assert(takes == cm + rest);
            assert(takes.map_values(f).len() == 1 + rest.map_values(f).len());
            assert forall|t: int| 0 <= t < takes.len() implies #[trigger] takes.map_values(f)[t]
                == (if t == 0 {
                f(cm[0])
            } else {
                rest.map_values(f)[t - 1]
            }) by {
                if t == 0 {
                    assert(takes[0] == cm[0]);
                } else {
                    assert(takes[t] == rest[t - 1]);
                }
            }
            assert(f(cm[0]) =~= seq![Some(q)]);
            assert(takes.map_values(f) =~= seq![seq![Some(q)]] + rest.map_values(f));
            assert(args_asgs(n, q, j) == seq![seq![Some(q)]] + args_asgs(n, q, j + 1));
            assert(takes.map_values(f) =~= args_asgs(n, q, j));
        } else {
            assert(!crate::query_struct::local_match(ap, c));
            assert(a =~= Seq::<Seq<Option<Seq<usize>>>>::empty());
            assert(crate::query_struct::cross_merge(a, b)
                =~= Seq::<Seq<Option<Seq<usize>>>>::empty());
            assert(takes =~= rest);
            assert(takes.map_values(f) =~= rest.map_values(f));
            assert(takes.map_values(f) =~= args_asgs(n, q, j));
        }
    }
}

proof fn lemma_callee_takes(n: SynNode, p: Seq<usize>, i: int)
    requires
        0 <= i <= n.children@.len(),
    ensures
        crate::query_struct::takes_from(print_call_pattern().children, n, p, 0, i, 1)
            == callee_asgs(n, p, i),
    decreases n.children@.len() - i,
{
    let pats = print_call_pattern().children;
    if i >= n.children@.len() {
        assert(crate::query_struct::takes_from(pats, n, p, 0, i, 1) =~= callee_asgs(n, p, i));
    } else {
        lemma_callee_takes(n, p, i + 1);
        assert(n.children@.len() <= usize::MAX) by {
            assert(n.children.len() == n.children@.len());
        }
        assert((i as usize) as int == i);
        let c = n.children@[i];
        let pi_path = p.push(i as usize);
        let idp = pats[0].pat;
        let a = crate::query_struct::pat_matches(idp, c, pi_path, 1);
        let b = crate::query_struct::pats_matches(pats, n, p, 1, i + 1, 1);
        let takes = crate::query_struct::takes_from(pats, n, p, 0, i, 1);
        let rest = crate::query_struct::takes_from(pats, n, p, 0, i + 1, 1);
        let base = crate::query_struct::empty_asg(1).update(0, Some(pi_path));
        let f = |x: Seq<Option<Seq<usize>>>| crate::query_struct::asg_merge(base, x);
        if c.named && c.kind@ == "identifier"@ {
            assert(crate::query_struct::local_match(idp, c));
            assert(crate::query_struct::pats_matches(idp.children, c, pi_path, 0, 0, 1) == seq![
                crate::query_struct::empty_asg(1),
            ]);
            assert(a.len() == 1);
            assert(a[0] == crate::query_struct::asg_merge(
                base,
                crate::query_struct::empty_asg(1),
            ));
            assert(a[0] =~= base);
            let cn_takes = crate::query_struct::takes_from(pats, n, p, 1, i + 1, 1);
            assert(!pats[1].optional);
            assert(b == cn_takes);
            let cm = crate::query_struct::cross_merge(a, b);
            assert(cm == b.map_values(
                |y: Seq<Option<Seq<usize>>>| crate::query_struct::asg_merge(a[0], y),
            ) + crate::query_struct::cross_merge(a.drop_first(), b));
            assert(a.drop_first().len() == 0);
            assert(crate::query_struct::cross_merge(a.drop_first(), b)
                =~= Seq::<Seq<Option<Seq<usize>>>>::empty());
            lemma_args_takes(n, p, pi_path, i + 1);
            assert(b.map_values(
                |y: Seq<Option<Seq<usize>>>| crate::query_struct::asg_merge(a[0], y),
            ) =~= b.map_values(f)) by {
                assert forall|t: int| 0 <= t < b.len() implies crate::query_struct::asg_merge(
                    a[0],
                    #[trigger] b[t],
                ) == crate::query_struct::asg_merge(base, b[t]) by {
                    assert(crate::query_struct::asg_merge(a[0], b[t])
                        =~= crate::query_struct::asg_merge(base, b[t]));
                }
            }
            assert(b.map_values(f) == args_asgs(n, pi_path, i + 1));
            assert(cm =~= args_asgs(n, pi_path, i + 1));
            assert(takes == cm + rest);
            assert(callee_asgs(n, p, i) == args_asgs(n, pi_path, i + 1) + callee_asgs(
                n,
                p,
                i + 1,
            ));
            assert(takes =~= callee_asgs(n, p, i));
        } else {
            assert(!crate::query_struct::local_match(idp, c));
            assert(a =~= Seq::<Seq<Option<Seq<usize>>>>::empty());
            assert(crate::query_struct::cross_merge(a, b)
                =~= Seq::<Seq<Option<Seq<usize>>>>::empty());
            assert(takes =~= callee_asgs(n, p, i));
        }
    }
}

proof fn lemma_print_pat_matches(n: SynNode, p: Seq<usize>)
    ensures
        crate::query_struct::pat_matches(print_call_pattern(), n, p, 1) == (if n.named && n.kind@
            == "call"@ {
            callee_asgs(n, p, 0)
        } else {
            Seq::<Seq<Option<Seq<usize>>>>::empty()
        }),
    decreases n, 2int, 0int,
{
    let pv = print_call_pattern();
    let pm = crate::query_struct::pat_matches(pv, n, p, 1);
    if crate::query_struct::local_match(pv, n) {
        let ways = crate::query_struct::pats_matches(pv.children, n, p, 0, 0, 1);
        lemma_callee_takes(n, p, 0);
        assert(!pv.children[0].optional);
        assert(ways == crate::query_struct::takes_from(pv.children, n, p, 0, 0, 1));
        crate::query_struct::lemma_pats_lens(pv.children, n, p, 0, 0, 1);
        assert(pm.len() == ways.len());
        assert forall|k: int| 0 <= k < pm.len() implies pm[k] == ways[k] by {
            assert(pm[k] == crate::query_struct::asg_merge(
                crate::query_struct::empty_asg(1),
                ways[k],
            ));
            assert(ways[k].len() == 1);
            assert(crate::query_struct::asg_merge(crate::query_struct::empty_asg(1), ways[k])
                =~= ways[k]);
        }
        assert(pm =~= ways);
    } else {
        assert(pm =~= Seq::<Seq<Option<Seq<usize>>>>::empty());
        assert(!(n.named && n.kind@ == "call"@));
    }
}

/// The call pattern's matches are exactly the identifier-arguments pairs of
/// the call nodes in the subtree, in document order.
pub proof fn lemma_print_matches(n: SynNode, p: Seq<usize>)
    ensures
        query_spec(print_call_pattern(), n, p, MatchDepth::Unbounded, 1) == call_site_asgs(n, p),
    decreases n, 4int, 0int,
{
    lemma_print_pat_matches(n, p);
    lemma_print_children(n, p, 0);
    assert(query_spec(print_call_pattern(), n, p, MatchDepth::Unbounded, 1) =~= call_site_asgs(
        n,
        p,
    ));
}

proof fn lemma_print_children(n: SynNode, p: Seq<usize>, from: int)
    requires
        0 <= from,
    ensures
        crate::query_struct::query_children(
            print_call_pattern(),
            n,
            p,
            from,
            MatchDepth::Unbounded,
            1,
        ) == call_site_walk(n, p, from),
    decreases n, 3int, n.children@.len() - from,
{
    if from >= n.children@.len() {
        assert(crate::query_struct::query_children(
            print_call_pattern(),
            n,
            p,
            from,
            MatchDepth::Unbounded,
            1,
        ) =~= call_site_walk(n, p, from));
    } else {
        assert(n.children@.len() <= usize::MAX) by {
            assert(n.children.len() == n.children@.len());
        }
        assert((from as usize) as int == from);
        lemma_print_matches(n.children@[from], p.push(from as usize));
        lemma_print_children(n, p, from + 1);
        assert(crate::query_struct::query_children(
            print_call_pattern(),
            n,
            p,
            from,
            MatchDepth::Unbounded,
            1,
        ) =~= call_site_walk(n, p, from));
    }
}

} // verus!

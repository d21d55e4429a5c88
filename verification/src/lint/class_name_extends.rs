//! Declaration-order header check: within the root scope, an `extends`
//! statement must not precede a `class_name` statement.

use vstd::prelude::*;

use crate::diag::{Diagnostic, DiagnosticV, Label, LabelV, Severity};
use crate::query_struct::{
    binds, binds_from, cap_node, lemma_query_binds, lemma_query_valid, node_at_path, pat_view,
    pats_view, query_spec, run_query, ChildPat, ChildPatV, MatchDepth, NodePat, PatV,
};
use crate::tree::{full_span, node_at, wf_node, SynNode};

verus! {

/// The pattern behind the check: a scope with an `extends` statement that
/// some `class_name` statement follows. A match is exactly one offending
/// pair, in source order.
pub open spec fn class_name_extends_pattern() -> PatV {
    PatV {
        kind: None,
        field: None,
        capture: None,
        children: seq![
            ChildPatV {
                optional: false,
                pat: PatV {
                    kind: Some("extends_statement"@),
                    field: None,
                    capture: Some(0),
                    children: Seq::empty(),
                },
            },
            ChildPatV {
                optional: false,
                pat: PatV {
                    kind: Some("class_name_statement"@),
                    field: None,
                    capture: Some(1),
                    children: Seq::empty(),
                },
            },
        ],
    }
}

/// The diagnostic for one offending pair.
pub open spec fn spec_header_diag(root: SynNode, a: Seq<Option<Seq<usize>>>) -> DiagnosticV {
    DiagnosticV {
        severity: Severity::Warning,
        code: "class-name-extends"@,
        message: "class_name should precede extends"@,
        labels: seq![
            LabelV {
                span: full_span(cap_node(root, a, 0)),
                text: Some("swap this"@),
                primary: false,
            },
            LabelV {
                span: full_span(cap_node(root, a, 1)),
                text: Some("with this"@),
                primary: false,
            },
        ],
        help: None,
        url: None,
    }
}

/// What the check returns: one diagnostic per pair of an `extends` statement
/// and a `class_name` statement after it among the root's children.
pub open spec fn spec_check_class_name_extends(root: SynNode) -> Seq<DiagnosticV> {
    query_spec(class_name_extends_pattern(), root, Seq::<usize>::empty(), MatchDepth::Root, 2)
        .map_values(|a: Seq<Option<Seq<usize>>>| spec_header_diag(root, a))
}

/// Build the executable pattern and relate it to its specification image.
fn build_class_name_extends_pattern() -> (r: NodePat)
    ensures
        pat_view(r) == class_name_extends_pattern(),
{
    let ext = ChildPat {
        optional: false,
        pat: NodePat {
            kind: Some("extends_statement".to_owned()),
            field: None,
            capture: Some(0),
            children: Vec::new(),
        },
    };
    let cn = ChildPat {
        optional: false,
        pat: NodePat {
            kind: Some("class_name_statement".to_owned()),
            field: None,
            capture: Some(1),
            children: Vec::new(),
        },
    };
    let mut children: Vec<ChildPat> = Vec::new();
    children.push(ext);
    children.push(cn);
    let r = NodePat { kind: None, field: None, capture: None, children };
    proof {
        let cs = r.children@;
        let cs1 = cs.drop_first();
        assert(cs.len() == 2 && cs1.len() == 1);
        assert(cs1[0] == cs[1]);
        assert(cs1.drop_first() =~= Seq::<ChildPat>::empty());
        assert(pats_view(cs1.drop_first()) =~= Seq::<ChildPatV>::empty());
        assert(pats_view(cs[0].pat.children@) =~= Seq::<ChildPatV>::empty());
        assert(pats_view(cs[1].pat.children@) =~= Seq::<ChildPatV>::empty());
        assert(pats_view(cs1) == seq![
            ChildPatV { optional: cs1[0].optional, pat: pat_view(cs1[0].pat) },
        ] + pats_view(cs1.drop_first()));
        assert(pats_view(cs) == seq![
            ChildPatV { optional: cs[0].optional, pat: pat_view(cs[0].pat) },
        ] + pats_view(cs1));
        assert(pat_view(r).kind =~~= class_name_extends_pattern().kind);
        assert(pat_view(r).field =~~= class_name_extends_pattern().field);
        assert(pat_view(r).capture =~~= class_name_extends_pattern().capture);
        assert(pat_view(r).children =~~= class_name_extends_pattern().children);
        assert(pat_view(r) =~~= class_name_extends_pattern());
    }
    r
}

/// Within the root scope, report every `extends` statement standing before a
/// `class_name` statement: one warning per pair, labeling both statements.
pub fn check_class_name_extends(root: &SynNode) -> (r: Vec<Diagnostic>)
    requires
        wf_node(*root),
    ensures
        r.deep_view() == spec_check_class_name_extends(*root),
{
    let pat = build_class_name_extends_pattern();
    let ghost pv = class_name_extends_pattern();
    proof {
        assert(binds(pv, 0) && binds(pv, 1)) by {
            assert(binds(pv.children[0].pat, 0));
            assert(binds(pv.children[1].pat, 1));
            assert(binds_from(pv.children, 2, 0) == false);
            assert(binds_from(pv.children, 1, 1));
            assert(binds_from(pv.children, 0, 0));
            assert(binds_from(pv.children, 0, 1));
        }
        assert(node_at(*root, Seq::<usize>::empty()) == Some(*root));
        lemma_query_binds(pv, *root, Seq::<usize>::empty(), MatchDepth::Root, 2, 0);
        lemma_query_binds(pv, *root, Seq::<usize>::empty(), MatchDepth::Root, 2, 1);
        lemma_query_valid(pv, *root, Seq::<usize>::empty(), *root, MatchDepth::Root, 2);
    }
    let recs = run_query(&pat, root, MatchDepth::Root, 2);
    let ghost ms = query_spec(pv, *root, Seq::<usize>::empty(), MatchDepth::Root, 2);
    let mut out: Vec<Diagnostic> = Vec::new();
    let mut k: usize = 0;
    while k < recs.len()
        invariant
            k <= recs@.len(),
            wf_node(*root),
            recs.deep_view() == ms,
            ms == query_spec(pv, *root, Seq::<usize>::empty(), MatchDepth::Root, 2),
            pv == class_name_extends_pattern(),
            forall|j: int| 0 <= j < recs@.len() ==> (#[trigger] recs@[j]).caps@.len() == 2,
            forall|j: int| 0 <= j < ms.len() ==> (#[trigger] ms[j])[0] is Some,
            forall|j: int| 0 <= j < ms.len() ==> (#[trigger] ms[j])[1] is Some,
            crate::query_struct::asgs_valid(*root, ms),
            crate::query_struct::asgs_len(ms, 2),
            out@.len() == k,
            forall|j: int|
                0 <= j < k ==> (#[trigger] out@[j]).deep_view() == spec_header_diag(*root, ms[j]),
        decreases recs@.len() - k,
    {
        let rec = &recs[k];
        proof {
            assert(rec.deep_view() == ms[k as int]);
            assert(ms[k as int][0] is Some && ms[k as int][1] is Some);
            assert(node_at(*root, ms[k as int][0]->0) is Some);
            assert(node_at(*root, ms[k as int][1]->0) is Some);
        }
        let pe = rec.required(0);
        let pc = rec.required(1);
        let ext = node_at_path(root, pe);
        let cn = node_at_path(root, pc);
        proof {
            crate::tree::lemma_node_at_wf(*root, pe@, *ext);
            crate::tree::lemma_node_at_wf(*root, pc@, *cn);
            assert(*ext == cap_node(*root, ms[k as int], 0));
            assert(*cn == cap_node(*root, ms[k as int], 1));
        }
        let mut labels: Vec<Label> = Vec::new();
        labels.push(
            Label { span: ext.to_source_span(), text: Some("swap this".to_owned()), primary: false },
        );
        labels.push(
            Label { span: cn.to_source_span(), text: Some("with this".to_owned()), primary: false },
        );
        let d = Diagnostic {
            severity: Severity::Warning,
            code: "class-name-extends".to_owned(),
            message: "class_name should precede extends".to_owned(),
            labels,
            help: None,
            url: None,
        };
        proof {
            assert(d.deep_view().labels =~= spec_header_diag(*root, ms[k as int]).labels);
            assert(d.deep_view() =~~= spec_header_diag(*root, ms[k as int]));
        }
        out.push(d);
        k = k + 1;
    }
    proof {
        assert(out.deep_view() =~= spec_check_class_name_extends(*root));
    }
    out
}

} // verus!

verus! {

/// One assignment per `class_name` statement among `n`'s children at
/// positions `j` and later, pairing it with the `extends` statement at `i`.
pub open spec fn class_name_asgs(n: SynNode, i: int, j: int) -> Seq<Seq<Option<Seq<usize>>>>
    decreases n.children@.len() - j,
{
    if j < 0 || j >= n.children@.len() {
        Seq::empty()
    } else {
        (if n.children@[j].named && n.children@[j].kind@ == "class_name_statement"@ {
            seq![seq![Some(seq![i as usize]), Some(seq![j as usize])]]
        } else {
            Seq::<Seq<Option<Seq<usize>>>>::empty()
        }) + class_name_asgs(n, i, j + 1)
    }
}

/// One assignment per pair of an `extends` statement at position `i` or
/// later and a `class_name` statement after it, in lexicographic order.
pub open spec fn header_pair_asgs(n: SynNode, i: int) -> Seq<Seq<Option<Seq<usize>>>>
    decreases n.children@.len() - i,
{
    if i < 0 || i >= n.children@.len() {
        Seq::empty()
    } else {
        (if n.children@[i].named && n.children@[i].kind@ == "extends_statement"@ {
            class_name_asgs(n, i, i + 1)
        } else {
            Seq::<Seq<Option<Seq<usize>>>>::empty()
        }) + header_pair_asgs(n, i + 1)
    }
}

proof fn lemma_cn_takes(root: SynNode, i: int, j: int)
    requires
        0 <= i,
        0 <= j <= root.children@.len(),
        root.children@.len() <= usize::MAX,
        (i as usize) as int == i,
    ensures
        crate::query_struct::takes_from(
            class_name_extends_pattern().children,
            root,
            Seq::<usize>::empty(),
            1,
            j,
            2,
        ).map_values(
            |a: Seq<Option<Seq<usize>>>| crate::query_struct::asg_merge(
                crate::query_struct::empty_asg(2).update(0, Some(Seq::<usize>::empty().push(i as usize))),
                a,
            ),
        ) == class_name_asgs(root, i, j),
    decreases root.children@.len() - j,
{
    let pats = class_name_extends_pattern().children;
    let p0 = Seq::<usize>::empty();
    let ebase = crate::query_struct::empty_asg(2).update(0, Some(p0.push(i as usize)));
    let f = |a: Seq<Option<Seq<usize>>>| crate::query_struct::asg_merge(ebase, a);
    if j >= root.children@.len() {
        assert(crate::query_struct::takes_from(pats, root, p0, 1, j, 2).map_values(f)
            =~= class_name_asgs(root, i, j));
    } else {
        lemma_cn_takes(root, i, j + 1);
        let c = root.children@[j];
        assert((j as usize) as int == j);
        let pj = p0.push(j as usize);
        let cnp = pats[1].pat;
        let a = crate::query_struct::pat_matches(cnp, c, pj, 2);
        let b = crate::query_struct::pats_matches(pats, root, p0, 2, j + 1, 2);
        assert(b == seq![crate::query_struct::empty_asg(2)]);
        let takes = crate::query_struct::takes_from(pats, root, p0, 1, j, 2);
        let rest = crate::query_struct::takes_from(pats, root, p0, 1, j + 1, 2);
        if c.named && c.kind@ == "class_name_statement"@ {
            assert(crate::query_struct::local_match(cnp, c));
            let cbase = crate::query_struct::empty_asg(2).update(1, Some(pj));
            assert(crate::query_struct::pats_matches(cnp.children, c, pj, 0, 0, 2) == seq![
                crate::query_struct::empty_asg(2),
            ]);
            assert(a.len() == 1);
            assert(a[0] == crate::query_struct::asg_merge(
                cbase,
                crate::query_struct::empty_asg(2),
            ));
            assert(a[0] =~= cbase);
            let cm = crate::query_struct::cross_merge(a, b);
            assert(cm == b.map_values(
                |y: Seq<Option<Seq<usize>>>| crate::query_struct::asg_merge(a[0], y),
            ) + crate::query_struct::cross_merge(a.drop_first(), b));
            assert(a.drop_first().len() == 0);
            assert(crate::query_struct::cross_merge(a.drop_first(), b)
                =~= Seq::<Seq<Option<Seq<usize>>>>::empty());
            assert(cm.len() == 1);
            assert(cm[0] == crate::query_struct::asg_merge(
                a[0],
                crate::query_struct::empty_asg(2),
            ));
            assert(cm[0] =~= cbase);
            assert(takes == cm + rest);
            assert(takes.map_values(f).len() == 1 + rest.map_values(f).len());
            assert forall|t: int| 0 <= t < takes.len() implies #[trigger] takes.map_values(f)[t]
                == (if t == 0 {
                f(cm[0])
            } else {
                rest.map_values(f)[t - 1]
            }) by {
                if t == 0 {
                    assert(takes[0] == cm[0]);
                } else {
                    assert(takes[t] == rest[t - 1]);
                }
            }
            assert(f(cm[0]) =~= seq![Some(seq![i as usize]), Some(seq![j as usize])]);
            assert(takes.map_values(f) =~= seq![
                seq![Some(seq![i as usize]), Some(seq![j as usize])],
            ] + rest.map_values(f));
            assert(class_name_asgs(root, i, j) == seq![
                seq![Some(seq![i as usize]), Some(seq![j as usize])],
            ] + class_name_asgs(root, i, j + 1));
            assert(takes.map_values(f) =~= class_name_asgs(root, i, j));
        } else {
            assert(!crate::query_struct::local_match(cnp, c));
            assert(a =~= Seq::<Seq<Option<Seq<usize>>>>::empty());
            assert(crate::query_struct::cross_merge(a, b)
                =~= Seq::<Seq<Option<Seq<usize>>>>::empty());
            assert(takes =~= rest);
            assert(takes.map_values(f) =~= rest.map_values(f));
            assert(takes.map_values(f) =~= class_name_asgs(root, i, j));
        }
    }
}

proof fn lemma_header_takes(root: SynNode, from: int)
    requires
        0 <= from <= root.children@.len(),
    ensures
        crate::query_struct::takes_from(
            class_name_extends_pattern().children,
            root,
            Seq::<usize>::empty(),
            0,
            from,
            2,
        ) == header_pair_asgs(root, from),
    decreases root.children@.len() - from,
{
    let pats = class_name_extends_pattern().children;
    let p0 = Seq::<usize>::empty();
    if from >= root.children@.len() {
        assert(crate::query_struct::takes_from(pats, root, p0, 0, from, 2)
            =~= header_pair_asgs(root, from));
    } else {
        lemma_header_takes(root, from + 1);
        assert(root.children@.len() <= usize::MAX) by {
            assert(root.children.len() == root.children@.len());
        }
        assert((from as usize) as int == from);
        let c = root.children@[from];
        let pf = p0.push(from as usize);
        let extp = pats[0].pat;
        let a = crate::query_struct::pat_matches(extp, c, pf, 2);
        let b = crate::query_struct::pats_matches(pats, root, p0, 1, from + 1, 2);
        let takes = crate::query_struct::takes_from(pats, root, p0, 0, from, 2);
        let rest = crate::query_struct::takes_from(pats, root, p0, 0, from + 1, 2);
        let ebase = crate::query_struct::empty_asg(2).update(0, Some(pf));
        let f = |x: Seq<Option<Seq<usize>>>| crate::query_struct::asg_merge(ebase, x);
        if c.named && c.kind@ == "extends_statement"@ {
            assert(crate::query_struct::local_match(extp, c));
            assert(crate::query_struct::pats_matches(extp.children, c, pf, 0, 0, 2) == seq![
                crate::query_struct::empty_asg(2),
            ]);
            assert(a.len() == 1);
            assert(a[0] == crate::query_struct::asg_merge(
                ebase,
                crate::query_struct::empty_asg(2),
            ));
            assert(a[0] =~= ebase);
            // The second pattern is not optional, so the ways of placing it
            // are exactly the takes from position from + 1.
            let cn_takes = crate::query_struct::takes_from(pats, root, p0, 1, from + 1, 2);
            assert(b == cn_takes || (pats[1].optional && cn_takes.len() == 0));
            assert(!pats[1].optional);
            assert(b == cn_takes);
            let cm = crate::query_struct::cross_merge(a, b);
            assert(cm == b.map_values(
                |y: Seq<Option<Seq<usize>>>| crate::query_struct::asg_merge(a[0], y),
            ) + crate::query_struct::cross_merge(a.drop_first(), b));
            assert(a.drop_first().len() == 0);
            assert(crate::query_struct::cross_merge(a.drop_first(), b)
                =~= Seq::<Seq<Option<Seq<usize>>>>::empty());
            lemma_cn_takes(root, from, from + 1);
            assert(b.map_values(
                |y: Seq<Option<Seq<usize>>>| crate::query_struct::asg_merge(a[0], y),
            ) =~= b.map_values(f)) by {
                assert forall|t: int| 0 <= t < b.len() implies crate::query_struct::asg_merge(
                    a[0],
                    #[trigger] b[t],
                ) == crate::query_struct::asg_merge(ebase, b[t]) by {
                    assert(crate::query_struct::asg_merge(a[0], b[t])
                        =~= crate::query_struct::asg_merge(ebase, b[t]));
                }
            }
            assert(b.map_values(f) == class_name_asgs(root, from, from + 1));
            assert(cm =~= class_name_asgs(root, from, from + 1));
            assert(takes == cm + rest);
            assert(header_pair_asgs(root, from) == class_name_asgs(root, from, from + 1)
                + header_pair_asgs(root, from + 1));
            assert(takes =~= header_pair_asgs(root, from));
        } else {
            assert(!crate::query_struct::local_match(extp, c));
            assert(a =~= Seq::<Seq<Option<Seq<usize>>>>::empty());
            assert(crate::query_struct::cross_merge(a, b)
                =~= Seq::<Seq<Option<Seq<usize>>>>::empty());
            assert(takes =~= header_pair_asgs(root, from));
        }
    }
}

/// The header check's matches are exactly the pairs of an `extends`
/// statement and a `class_name` statement after it among the root's
/// children, in lexicographic order of positions; an unnamed root yields no
/// match.
pub proof fn lemma_header_matches(root: SynNode)
    ensures
        root.named ==> query_spec(
            class_name_extends_pattern(),
            root,
            Seq::<usize>::empty(),
            MatchDepth::Root,
            2,
        ) == header_pair_asgs(root, 0),
        !root.named ==> query_spec(
            class_name_extends_pattern(),
            root,
            Seq::<usize>::empty(),
            MatchDepth::Root,
            2,
        ) == Seq::<Seq<Option<Seq<usize>>>>::empty(),
{
    let pv = class_name_extends_pattern();
    let p0 = Seq::<usize>::empty();
    let pm = crate::query_struct::pat_matches(pv, root, p0, 2);
    assert(query_spec(pv, root, p0, MatchDepth::Root, 2) =~= pm);
    if crate::query_struct::local_match(pv, root) {
        let ways = crate::query_struct::pats_matches(pv.children, root, p0, 0, 0, 2);
        lemma_header_takes(root, 0);
        assert(!pv.children[0].optional);
        assert(ways == crate::query_struct::takes_from(pv.children, root, p0, 0, 0, 2));
        crate::query_struct::lemma_pats_lens(pv.children, root, p0, 0, 0, 2);
        assert(pm.len() == ways.len());
        assert forall|k: int| 0 <= k < pm.len() implies pm[k] == ways[k] by {
            assert(pm[k] == crate::query_struct::asg_merge(
                crate::query_struct::empty_asg(2),
                ways[k],
            ));
            assert(ways[k].len() == 2);
            assert(crate::query_struct::asg_merge(crate::query_struct::empty_asg(2), ways[k])
                =~= ways[k]);
        }
        assert(pm =~= ways);
    } else {
        assert(pm =~= Seq::<Seq<Option<Seq<usize>>>>::empty());
    }
}

} // verus!

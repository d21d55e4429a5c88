//! Typed function signature check.
//!
//! Function definitions are queried one match per parameter; matches are
//! grouped by the function name's text, so that one logical function gets
//! one diagnostic. A group is flagged once for a missing return type, at the
//! end of its parameter list, and once per parameter without a type
//! annotation.

use vstd::prelude::*;

use crate::diag::{Diagnostic, DiagnosticV, Label, LabelV, Severity};
use crate::query_struct::{
    asgs_len, asgs_valid, binds, binds_from, cap_node, lemma_query_binds, lemma_query_valid,
    node_at_path, pat_view, pats_view, query_spec, run_query, ChildPat, ChildPatV, MatchDepth,
    NodePat, PatV,
};
use crate::tree::{first_field_child, full_span, node_at, point_end_span, wf_node, SynNode};

verus! {

/// The pattern behind the check: a function definition with its name, its
/// parameter list, one parameter per match where any exists, and its return
/// type where one exists.
pub open spec fn function_pattern() -> PatV {
    PatV {
        kind: Some("function_definition"@),
        field: None,
        capture: None,
        children: seq![
            ChildPatV {
                optional: false,
                pat: PatV {
                    kind: Some("name"@),
                    field: Some("name"@),
                    capture: Some(0),
                    children: Seq::empty(),
                },
            },
            ChildPatV {
                optional: false,
                pat: PatV {
                    kind: Some("parameters"@),
                    field: Some("parameters"@),
                    capture: Some(3),
                    children: seq![
                        ChildPatV {
                            optional: true,
                            pat: PatV {
                                kind: None,
                                field: None,
                                capture: Some(1),
                                children: Seq::empty(),
                            },
                        },
                    ],
                },
            },
            ChildPatV {
                optional: true,
                pat: PatV {
                    kind: None,
                    field: Some("return_type"@),
                    capture: Some(2),
                    children: Seq::empty(),
                },
            },
        ],
    }
}

/// The text of the function name a match captured.
pub open spec fn fn_name_text(root: SynNode, a: Seq<Option<Seq<usize>>>) -> Seq<char> {
    cap_node(root, a, 0).text@
}

/// Whether some match before position `k` carries the name `key`.
pub open spec fn key_seen(
    root: SynNode,
    ms: Seq<Seq<Option<Seq<usize>>>>,
    k: int,
    key: Seq<char>,
) -> bool
    decreases k,
{
    if k <= 0 || k > ms.len() {
        false
    } else {
        fn_name_text(root, ms[k - 1]) == key || key_seen(root, ms, k - 1, key)
    }
}

/// The return-type node of the group `key`: from the first of its matches
/// that carried one.
pub open spec fn group_ret(
    root: SynNode,
    ms: Seq<Seq<Option<Seq<usize>>>>,
    k: int,
    key: Seq<char>,
) -> Option<SynNode>
    decreases ms.len() - k,
{
    if k < 0 || k >= ms.len() {
        None
    } else if fn_name_text(root, ms[k]) == key && ms[k][2] is Some {
        Some(cap_node(root, ms[k], 2))
    } else {
        group_ret(root, ms, k + 1, key)
    }
}

/// The parameter-list node of the group `key`, from its first match.
pub open spec fn group_plist(
    root: SynNode,
    ms: Seq<Seq<Option<Seq<usize>>>>,
    k: int,
    key: Seq<char>,
) -> Option<SynNode>
    decreases ms.len() - k,
{
    if k < 0 || k >= ms.len() {
        None
    } else if fn_name_text(root, ms[k]) == key {
        Some(cap_node(root, ms[k], 3))
    } else {
        group_plist(root, ms, k + 1, key)
    }
}

/// Whether a parameter node carries an explicit type annotation.
pub open spec fn param_typed(n: SynNode) -> bool {
    first_field_child(n.children@, "type"@) is Some
}

/// The labels for the untyped parameters of the group `key` among
/// `ms[k..]`, in match order.
pub open spec fn param_labels(
    root: SynNode,
    ms: Seq<Seq<Option<Seq<usize>>>>,
    k: int,
    key: Seq<char>,
) -> Seq<LabelV>
    decreases ms.len() - k,
{
    if k < 0 || k >= ms.len() {
        Seq::empty()
    } else {
        (if fn_name_text(root, ms[k]) == key && ms[k][1] is Some && !param_typed(
            cap_node(root, ms[k], 1),
        ) {
            seq![
                LabelV {
                    span: full_span(cap_node(root, ms[k], 1)),
                    text: Some("parameter is missing a type annotation"@),
                    primary: false,
                },
            ]
        } else {
            Seq::empty()
        }) + param_labels(root, ms, k + 1, key)
    }
}

/// All labels of the group `key`: a missing-return-type label at the end of
/// its parameter list where no match carried a return type, then one label
/// per untyped parameter.
pub open spec fn group_labels(
    root: SynNode,
    ms: Seq<Seq<Option<Seq<usize>>>>,
    key: Seq<char>,
) -> Seq<LabelV> {
    (if group_ret(root, ms, 0, key) is None {
        seq![
            LabelV {
                span: point_end_span(match group_plist(root, ms, 0, key) {
                    Some(pl) => pl,
                    None => root,
                }),
                text: Some("function is missing a return type"@),
                primary: false,
            },
        ]
    } else {
        Seq::empty()
    }) + param_labels(root, ms, 0, key)
}

/// The diagnostics for the groups first seen at `ms[k..]`: one per group
/// with at least one label.
pub open spec fn spec_fn_diags(
    root: SynNode,
    ms: Seq<Seq<Option<Seq<usize>>>>,
    k: int,
) -> Seq<DiagnosticV>
    decreases ms.len() - k,
{
    if k < 0 || k >= ms.len() {
        Seq::empty()
    } else {
        ({
            let key = fn_name_text(root, ms[k]);
            if key_seen(root, ms, k, key) || group_labels(root, ms, key).len() == 0 {
                Seq::<DiagnosticV>::empty()
            } else {
                seq![
                    DiagnosticV {
                        severity: Severity::Warning,
                        code: "typed-function-signature"@,
                        message: "function signatures should be fully typed"@,
                        labels: group_labels(root, ms, key),
                        help: None,
                        url: None,
                    },
                ]
            }
        }) + spec_fn_diags(root, ms, k + 1)
    }
}

/// What the check returns: per logical function with an incomplete
/// signature, one diagnostic carrying all its labels.
pub open spec fn spec_check_typed_function_signature(root: SynNode) -> Seq<DiagnosticV> {
    spec_fn_diags(
        root,
        query_spec(function_pattern(), root, Seq::<usize>::empty(), MatchDepth::RootOrChildren, 4),
        0,
    )
}

/// One match's captured nodes, resolved.
struct FnRow<'a> {
    name: &'a SynNode,
    plist: &'a SynNode,
    ret: Option<&'a SynNode>,
    param: Option<&'a SynNode>,
}

/// Build the executable pattern and relate it to its specification image.
fn build_function_pattern() -> (r: NodePat)
    ensures
        pat_view(r) == function_pattern(),
{
    let mut param_children: Vec<ChildPat> = Vec::new();
    param_children.push(
        ChildPat {
            optional: true,
            pat: NodePat { kind: None, field: None, capture: Some(1), children: Vec::new() },
        },
    );
    let name = ChildPat {
        optional: false,
        pat: NodePat {
            kind: Some("name".to_owned()),
            field: Some("name".to_owned()),
            capture: Some(0),
            children: Vec::new(),
        },
    };
    let params = ChildPat {
        optional: false,
        pat: NodePat {
            kind: Some("parameters".to_owned()),
            field: Some("parameters".to_owned()),
            capture: Some(3),
            children: param_children,
        },
    };
    let ret = ChildPat {
        optional: true,
        pat: NodePat {
            kind: None,
            field: Some("return_type".to_owned()),
            capture: Some(2),
            children: Vec::new(),
        },
    };
    let mut children: Vec<ChildPat> = Vec::new();
    children.push(name);
    children.push(params);
    children.push(ret);
    let r = NodePat {
        kind: Some("function_definition".to_owned()),
        field: None,
        capture: None,
        children,
    };
    proof {
        let cs = r.children@;
        let cs1 = cs.drop_first();
        let cs2 = cs1.drop_first();
        assert(cs.len() == 3 && cs1.len() == 2 && cs2.len() == 1);
        assert(cs1[0] == cs[1] && cs1[1] == cs[2]);
        assert(cs2[0] == cs[2]);
        assert(cs2.drop_first() =~= Seq::<ChildPat>::empty());
        assert(pats_view(cs2.drop_first()) =~= Seq::<ChildPatV>::empty());
        assert(pats_view(cs[0].pat.children@) =~= Seq::<ChildPatV>::empty());
        assert(pats_view(cs[2].pat.children@) =~= Seq::<ChildPatV>::empty());
        let ps = cs[1].pat.children@;
        assert(ps.len() == 1);
        assert(ps.drop_first() =~= Seq::<ChildPat>::empty());
        assert(pats_view(ps.drop_first()) =~= Seq::<ChildPatV>::empty());
        assert(pats_view(ps[0].pat.children@) =~= Seq::<ChildPatV>::empty());
        assert(pats_view(ps) == seq![
            ChildPatV { optional: ps[0].optional, pat: pat_view(ps[0].pat) },
        ] + pats_view(ps.drop_first()));
        assert(pats_view(cs2) == seq![
            ChildPatV { optional: cs2[0].optional, pat: pat_view(cs2[0].pat) },
        ] + pats_view(cs2.drop_first()));
        assert(pats_view(cs1) == seq![
            ChildPatV { optional: cs1[0].optional, pat: pat_view(cs1[0].pat) },
        ] + pats_view(cs2));
        assert(pats_view(cs) == seq![
            ChildPatV { optional: cs[0].optional, pat: pat_view(cs[0].pat) },
        ] + pats_view(cs1));
        assert(pat_view(r).kind =~~= function_pattern().kind);
        assert(pat_view(r).field =~~= function_pattern().field);
        assert(pat_view(r).capture =~~= function_pattern().capture);
        assert(pat_view(r).children =~~= function_pattern().children);
        assert(pat_view(r) =~~= function_pattern());
    }
    r
}

/// Report every logical function whose signature is not fully typed: one
/// warning per function, with a label for a missing return type and one for
/// each parameter without a type annotation.
pub fn check_typed_function_signature(root: &SynNode) -> (r: Vec<Diagnostic>)
    requires
        wf_node(*root),
    ensures
        r.deep_view() == spec_check_typed_function_signature(*root),
{
    let pat = build_function_pattern();
    let ghost pv = function_pattern();
    proof {
        assert(binds(pv, 0) && binds(pv, 3)) by {
            assert(binds(pv.children[0].pat, 0));
            assert(binds(pv.children[1].pat, 3));
            assert(binds_from(pv.children, 1, 3));
            assert(binds_from(pv.children, 0, 3));
            assert(binds_from(pv.children, 0, 0));
        }
        assert(node_at(*root, Seq::<usize>::empty()) == Some(*root));
        lemma_query_binds(pv, *root, Seq::<usize>::empty(), MatchDepth::RootOrChildren, 4, 0);
        lemma_query_binds(pv, *root, Seq::<usize>::empty(), MatchDepth::RootOrChildren, 4, 3);
        lemma_query_valid(pv, *root, Seq::<usize>::empty(), *root, MatchDepth::RootOrChildren, 4);
    }
    let recs = run_query(&pat, root, MatchDepth::RootOrChildren, 4);
    let ghost ms = query_spec(pv, *root, Seq::<usize>::empty(), MatchDepth::RootOrChildren, 4);

    let mut rows: Vec<FnRow> = Vec::new();
    let mut k: usize = 0;
    while k < recs.len()
        invariant
            k <= recs@.len(),
            wf_node(*root),
            recs.deep_view() == ms,
            ms == query_spec(pv, *root, Seq::<usize>::empty(), MatchDepth::RootOrChildren, 4),
            pv == function_pattern(),
            forall|j: int| 0 <= j < recs@.len() ==> (#[trigger] recs@[j]).caps@.len() == 4,
            forall|j: int| 0 <= j < ms.len() ==> (#[trigger] ms[j])[0] is Some,
            forall|j: int| 0 <= j < ms.len() ==> (#[trigger] ms[j])[3] is Some,
            asgs_valid(*root, ms),
            asgs_len(ms, 4),
            rows@.len() == k,
            forall|j: int|
                0 <= j < k ==> *(#[trigger] rows@[j]).name == cap_node(*root, ms[j], 0),
            forall|j: int|
                0 <= j < k ==> *(#[trigger] rows@[j]).plist == cap_node(*root, ms[j], 3),
            forall|j: int|
                0 <= j < k ==> (match (#[trigger] rows@[j]).ret {
                    Some(n) => ms[j][2] is Some && *n == cap_node(*root, ms[j], 2),
                    None => ms[j][2] is None,
                }),
            forall|j: int|
                0 <= j < k ==> (match (#[trigger] rows@[j]).param {
                    Some(n) => ms[j][1] is Some && *n == cap_node(*root, ms[j], 1),
                    None => ms[j][1] is None,
                }),
        decreases recs@.len() - k,
    {
        let rec = &recs[k];
        proof {
            assert(rec.deep_view() == ms[k as int]);
            assert(ms[k as int][0] is Some && ms[k as int][3] is Some);
            assert(node_at(*root, ms[k as int][0]->0) is Some);
            assert(node_at(*root, ms[k as int][3]->0) is Some);
        }
        let name = node_at_path(root, rec.required(0));
        let plist = node_at_path(root, rec.required(3));
        let ret: Option<&SynNode> = match rec.optional(2) {
            Some(p) => {
                proof {
                    assert(ms[k as int][2] is Some);
                    assert(node_at(*root, ms[k as int][2]->0) is Some);
                }
                Some(node_at_path(root, p))
            },
            None => None,
        };
        let param: Option<&SynNode> = match rec.optional(1) {
            Some(p) => {
                proof {
                    assert(ms[k as int][1] is Some);
                    assert(node_at(*root, ms[k as int][1]->0) is Some);
                }
                Some(node_at_path(root, p))
            },
            None => None,
        };
        rows.push(FnRow { name, plist, ret, param });
        k = k + 1;
    }

    let mut out: Vec<Diagnostic> = Vec::new();
    let mut i: usize = 0;
    while i < rows.len()
        invariant
            i <= rows@.len(),
            wf_node(*root),
            rows@.len() == ms.len(),
            ms == query_spec(pv, *root, Seq::<usize>::empty(), MatchDepth::RootOrChildren, 4),
            pv == function_pattern(),
            asgs_valid(*root, ms),
            asgs_len(ms, 4),
            forall|j: int|
                0 <= j < ms.len() ==> *(#[trigger] rows@[j]).name == cap_node(*root, ms[j], 0),
            forall|j: int|
                0 <= j < ms.len() ==> *(#[trigger] rows@[j]).plist == cap_node(*root, ms[j], 3),
            forall|j: int|
                0 <= j < ms.len() ==> (match (#[trigger] rows@[j]).ret {
                    Some(n) => ms[j][2] is Some && *n == cap_node(*root, ms[j], 2),
                    None => ms[j][2] is None,
                }),
            forall|j: int|
                0 <= j < ms.len() ==> (match (#[trigger] rows@[j]).param {
                    Some(n) => ms[j][1] is Some && *n == cap_node(*root, ms[j], 1),
                    None => ms[j][1] is None,
                }),
            out.deep_view() + spec_fn_diags(*root, ms, i as int) == spec_fn_diags(*root, ms, 0),
        decreases rows@.len() - i,
    {
        let ghost key = fn_name_text(*root, ms[i as int]);
        let mut seen = false;
        let mut j: usize = 0;
        while j < i
            invariant
                j <= i < rows@.len(),
                rows@.len() == ms.len(),
                key == fn_name_text(*root, ms[i as int]),
                forall|t: int|
                    0 <= t < ms.len() ==> *(#[trigger] rows@[t]).name == cap_node(*root, ms[t], 0),
                seen == key_seen(*root, ms, j as int, key),
            decreases i - j,
        {
            if rows[j].name.text == rows[i].name.text {
                seen = true;
            }
            j = j + 1;
        }
        let ghost odeep = out.deep_view();
        if !seen {
            // Gather the group's labels.
            let mut labels: Vec<Label> = Vec::new();
            let mut ret_found = false;
            let mut plist_first: Option<&SynNode> = None;
            let mut t: usize = 0;
            while t < rows.len()
                invariant
                    t <= rows@.len(),
                    rows@.len() == ms.len(),
                    key == fn_name_text(*root, ms[i as int]),
                    i < rows@.len(),
                    forall|u: int|
                        0 <= u < ms.len() ==> *(#[trigger] rows@[u]).name == cap_node(
                            *root,
                            ms[u],
                            0,
                        ),
                    forall|u: int|
                        0 <= u < ms.len() ==> *(#[trigger] rows@[u]).plist == cap_node(
                            *root,
                            ms[u],
                            3,
                        ),
                    forall|u: int|
                        0 <= u < ms.len() ==> (match (#[trigger] rows@[u]).ret {
                            Some(n) => ms[u][2] is Some && *n == cap_node(*root, ms[u], 2),
                            None => ms[u][2] is None,
                        }),
                    !ret_found ==> group_ret(*root, ms, 0, key) == group_ret(
                        *root,
                        ms,
                        t as int,
                        key,
                    ),
                    ret_found ==> group_ret(*root, ms, 0, key) is Some,
                    match plist_first {
                        Some(n) => group_plist(*root, ms, 0, key) == Some(*n),
                        None => group_plist(*root, ms, 0, key) == group_plist(
                            *root,
                            ms,
                            t as int,
                            key,
                        ),
                    },
                decreases rows@.len() - t,
            {
                let name_matches = rows[t].name.text == rows[i].name.text;
                if name_matches {
                    if plist_first.is_none() {
                        plist_first = Some(rows[t].plist);
                    }
                    if !ret_found && rows[t].ret.is_some() {
                        ret_found = true;
                    }
                }
                t = t + 1;
            }
            if !ret_found {
                let pl = match plist_first {
                    Some(n) => n,
                    None => root,
                };
                labels.push(
                    Label {
                        span: pl.to_source_point_end(),
                        text: Some("function is missing a return type".to_owned()),
                        primary: false,
                    },
                );
            }
            proof {
                assert(group_ret(*root, ms, ms.len() as int, key) is None);
                assert(group_plist(*root, ms, ms.len() as int, key) is None);
                assert(labels.deep_view() + param_labels(*root, ms, 0, key) =~= group_labels(
                    *root,
                    ms,
                    key,
                ));
            }
            let mut t2: usize = 0;
            while t2 < rows.len()
                invariant
                    t2 <= rows@.len(),
                    rows@.len() == ms.len(),
                    wf_node(*root),
                    asgs_valid(*root, ms),
                    asgs_len(ms, 4),
                    key == fn_name_text(*root, ms[i as int]),
                    i < rows@.len(),
                    forall|u: int|
                        0 <= u < ms.len() ==> *(#[trigger] rows@[u]).name == cap_node(
                            *root,
                            ms[u],
                            0,
                        ),
                    forall|u: int|
                        0 <= u < ms.len() ==> (match (#[trigger] rows@[u]).param {
                            Some(n) => ms[u][1] is Some && *n == cap_node(*root, ms[u], 1),
                            None => ms[u][1] is None,
                        }),
                    labels.deep_view() + param_labels(*root, ms, t2 as int, key) == group_labels(
                        *root,
                        ms,
                        key,
                    ),
                decreases rows@.len() - t2,
            {
                let name_matches = rows[t2].name.text == rows[i].name.text;
                let ghost ldeep = labels.deep_view();
                if name_matches {
                    match rows[t2].param {
                        Some(pn) => {
                            let has_type = match pn.child_by_field_name("type") {
                                Some(_) => true,
                                None => false,
                            };
                            if !has_type {
                                proof {
                                    assert(ms[t2 as int][1] is Some);
                                    assert(node_at(*root, ms[t2 as int][1]->0) is Some);
                                    crate::tree::lemma_node_at_wf(
                                        *root,
                                        ms[t2 as int][1]->0,
                                        cap_node(*root, ms[t2 as int], 1),
                                    );
                                }
                                labels.push(
                                    Label {
                                        span: pn.to_source_span(),
                                        text: Some(
                                            "parameter is missing a type annotation".to_owned(),
                                        ),
                                        primary: false,
                                    },
                                );
                            }
                        },
                        None => {},
                    }
                }
                proof {
                    assert(param_labels(*root, ms, t2 as int, key) == (if fn_name_text(
                        *root,
                        ms[t2 as int],
                    ) == key && ms[t2 as int][1] is Some && !param_typed(
                        cap_node(*root, ms[t2 as int], 1),
                    ) {
                        seq![
                            LabelV {
                                span: full_span(cap_node(*root, ms[t2 as int], 1)),
                                text: Some("parameter is missing a type annotation"@),
                                primary: false,
                            },
                        ]
                    } else {
                        Seq::<LabelV>::empty()
                    }) + param_labels(*root, ms, t2 as int + 1, key));
                    assert(labels.deep_view() + param_labels(*root, ms, t2 as int + 1, key)
                        =~= group_labels(*root, ms, key));
                }
                t2 = t2 + 1;
            }
            proof {
                assert(param_labels(*root, ms, ms.len() as int, key) =~= Seq::<LabelV>::empty());
                assert(labels.deep_view() =~= group_labels(*root, ms, key));
            }
            if labels.len() > 0 {
                let d = Diagnostic {
                    severity: Severity::Warning,
                    code: "typed-function-signature".to_owned(),
                    message: "function signatures should be fully typed".to_owned(),
                    labels,
                    help: None,
                    url: None,
                };
                proof {
                    assert(d.deep_view() =~~= DiagnosticV {
                        severity: Severity::Warning,
                        code: "typed-function-signature"@,
                        message: "function signatures should be fully typed"@,
                        labels: group_labels(*root, ms, key),
                        help: None,
                        url: None,
                    });
                }
                out.push(d);
            }
        }
        proof {
            assert(spec_fn_diags(*root, ms, i as int) == ({
                let key2 = fn_name_text(*root, ms[i as int]);
                if key_seen(*root, ms, i as int, key2) || group_labels(*root, ms, key2).len()
                    == 0 {
                    Seq::<DiagnosticV>::empty()
                } else {
                    seq![
                        DiagnosticV {
                            severity: Severity::Warning,
                            code: "typed-function-signature"@,
                            message: "function signatures should be fully typed"@,
                            labels: group_labels(*root, ms, key2),
                            help: None,
                            url: None,
                        },
                    ]
                }
            }) + spec_fn_diags(*root, ms, i as int + 1));
            assert(out.deep_view() + spec_fn_diags(*root, ms, i as int + 1) =~= spec_fn_diags(
                *root,
                ms,
                0,
            ));
        }
        i = i + 1;
    }
    proof {
        assert(spec_fn_diags(*root, ms, ms.len() as int) =~= Seq::<DiagnosticV>::empty());
        assert(out.deep_view() =~= spec_check_typed_function_signature(*root));
    }
    out
}

} // verus!

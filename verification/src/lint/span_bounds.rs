//! Every diagnostic the checks emit labels a span inside the checked file:
//! for a well-formed tree, every label's byte range ends at or before the
//! root's end offset.

use vstd::prelude::*;

use crate::diag::{DiagnosticV, LabelV};
use crate::query_struct::cap_node;
use crate::tree::{node_at, wf_node, SynNode};

use crate::lint::class_name_extends::{spec_check_class_name_extends, spec_header_diag};
use crate::lint::export_var_order::{
    higher_pred, spec_check_export_var_order, spec_ranked, spec_scan_diags, spec_unknown_diags,
    top_level_matches, RankedDecl,
};
use crate::lint::no_print_call::{spec_check_no_print_call, spec_print_diags};
use crate::lint::typed_function_signature::{
    group_plist, group_ret, param_labels, spec_check_typed_function_signature, spec_fn_diags,
};
use crate::lint::spec_run_checks;

verus! {

/// Whether a label's byte range ends at or before `limit`.
pub open spec fn label_within(l: LabelV, limit: int) -> bool {
    l.span.offset + l.span.len <= limit
}

/// Whether every label in the list stays within `limit`.
pub open spec fn labels_within(ls: Seq<LabelV>, limit: int) -> bool {
    forall|i: int| 0 <= i < ls.len() ==> label_within(#[trigger] ls[i], limit)
}

/// Whether every label of every diagnostic stays within `limit`.
pub open spec fn diags_within(ds: Seq<DiagnosticV>, limit: int) -> bool {
    forall|k: int| 0 <= k < ds.len() ==> labels_within((#[trigger] ds[k]).labels, limit)
}

/// A captured node's span is ordered and ends within the root's span.
proof fn lemma_cap_node_within(root: SynNode, a: Seq<Option<Seq<usize>>>, c: int)
    requires
        wf_node(root),
    ensures
        cap_node(root, a, c).start <= cap_node(root, a, c).end <= root.end,
{
    if 0 <= c < a.len() && a[c] is Some && node_at(root, a[c]->0) is Some {
        crate::tree::lemma_node_at_wf(root, a[c]->0, cap_node(root, a, c));
    }
}

proof fn lemma_concat_within(x: Seq<DiagnosticV>, y: Seq<DiagnosticV>, limit: int)
    requires
        diags_within(x, limit),
        diags_within(y, limit),
    ensures
        diags_within(x + y, limit),
{
    assert forall|k: int| 0 <= k < (x + y).len() implies labels_within(
        (#[trigger] (x + y)[k]).labels,
        limit,
    ) by {
        if k < x.len() {
            assert((x + y)[k] == x[k]);
        } else {
            assert((x + y)[k] == y[k - x.len()]);
        }
    }
}

proof fn lemma_header_within(root: SynNode)
    requires
        wf_node(root),
    ensures
        diags_within(spec_check_class_name_extends(root), root.end as int),
{
    let ds = spec_check_class_name_extends(root);
    let ms = top_level_header_ms(root);
    assert forall|k: int| 0 <= k < ds.len() implies labels_within(
        (#[trigger] ds[k]).labels,
        root.end as int,
    ) by {
        assert(ds[k] == spec_header_diag(root, ms[k]));
        lemma_cap_node_within(root, ms[k], 0);
        lemma_cap_node_within(root, ms[k], 1);
        assert forall|i: int| 0 <= i < ds[k].labels.len() implies label_within(
            #[trigger] ds[k].labels[i],
            root.end as int,
        ) by {
        }
    }
}

/// The header check's match list, named for the proof above.
spec fn top_level_header_ms(root: SynNode) -> Seq<Seq<Option<Seq<usize>>>> {
    crate::query_struct::query_spec(
        crate::lint::class_name_extends_pattern(),
        root,
        Seq::<usize>::empty(),
        crate::query_struct::MatchDepth::Root,
        2,
    )
}

proof fn lemma_print_within(root: SynNode, ms: Seq<Seq<Option<Seq<usize>>>>, k: int)
    requires
        wf_node(root),
    ensures
        diags_within(spec_print_diags(root, ms, k), root.end as int),
    decreases ms.len() - k,
{
    if k < 0 || k >= ms.len() {
    } else {
        lemma_print_within(root, ms, k + 1);
        lemma_cap_node_within(root, ms[k], 0);
        let ds = spec_print_diags(root, ms, k);
        assert forall|t: int| 0 <= t < ds.len() implies labels_within(
            (#[trigger] ds[t]).labels,
            root.end as int,
        ) by {
            let head = if cap_node(root, ms[k], 0).text@ == "print"@ {
                seq![crate::lint::spec_print_diag(cap_node(root, ms[k], 0))]
            } else {
                Seq::<DiagnosticV>::empty()
            };
            if t < head.len() {
                assert(ds[t] == head[t]);
            } else {
                assert(ds[t] == spec_print_diags(root, ms, k + 1)[t - head.len()]);
            }
        }
    }
}

proof fn lemma_unknown_within(root: SynNode, ms: Seq<Seq<Option<Seq<usize>>>>, k: int)
    requires
        wf_node(root),
    ensures
        diags_within(spec_unknown_diags(root, ms, k), root.end as int),
    decreases ms.len() - k,
{
    if k < 0 || k >= ms.len() {
    } else {
        lemma_unknown_within(root, ms, k + 1);
        lemma_cap_node_within(root, ms[k], 0);
        let ds = spec_unknown_diags(root, ms, k);
        assert forall|t: int| 0 <= t < ds.len() implies labels_within(
            (#[trigger] ds[t]).labels,
            root.end as int,
        ) by {
            let head = if crate::lint::spec_definition_order(cap_node(root, ms[k], 0)) is None {
                seq![crate::lint::export_var_order::spec_unknown_diag(cap_node(root, ms[k], 0))]
            } else {
                Seq::<DiagnosticV>::empty()
            };
            if t < head.len() {
                assert(ds[t] == head[t]);
            } else {
                assert(ds[t] == spec_unknown_diags(root, ms, k + 1)[t - head.len()]);
            }
        }
    }
}

/// Whether every ranked declaration's node span stays within `limit`.
spec fn ranked_within(items: Seq<RankedDecl>, limit: int) -> bool {
    forall|t: int|
        0 <= t < items.len() ==> (#[trigger] items[t]).node.start <= items[t].node.end <= limit
}

proof fn lemma_ranked_within(root: SynNode, ms: Seq<Seq<Option<Seq<usize>>>>, k: int)
    requires
        wf_node(root),
    ensures
        ranked_within(spec_ranked(root, ms, k), root.end as int),
    decreases ms.len() - k,
{
    if k < 0 || k >= ms.len() {
    } else {
        lemma_ranked_within(root, ms, k + 1);
        lemma_cap_node_within(root, ms[k], 0);
        let items = spec_ranked(root, ms, k);
        let rest = spec_ranked(root, ms, k + 1);
        assert forall|t: int| 0 <= t < items.len() implies (#[trigger] items[t]).node.start
            <= items[t].node.end <= root.end by {
            if t < items.len() - rest.len() {
            } else {
                assert(items[t] == rest[t - (items.len() - rest.len())]);
            }
        }
    }
}

proof fn lemma_higher_pred_in_range(items: Seq<RankedDecl>, i: int, j: int)
    ensures
        match higher_pred(items, i, j) {
            Some(t) => 0 <= t < items.len(),
            None => true,
        },
    decreases j + 1,
{
    if j < 0 || j >= items.len() || i < 0 || i >= items.len() {
    } else if items[j].rank > items[i].rank {
    } else {
        lemma_higher_pred_in_range(items, i, j - 1);
    }
}

proof fn lemma_scan_within(items: Seq<RankedDecl>, i: int, limit: int)
    requires
        ranked_within(items, limit),
    ensures
        diags_within(spec_scan_diags(items, i), limit),
    decreases items.len() - i,
{
    if i < 0 || i >= items.len() {
    } else {
        lemma_scan_within(items, i + 1, limit);
        lemma_higher_pred_in_range(items, i, i - 1);
        let ds = spec_scan_diags(items, i);
        assert forall|t: int| 0 <= t < ds.len() implies labels_within(
            (#[trigger] ds[t]).labels,
            limit,
        ) by {
            let head = match higher_pred(items, i, i - 1) {
                Some(j) => seq![
                    crate::lint::export_var_order::spec_order_diag(items[j], items[i]),
                ],
                None => Seq::<DiagnosticV>::empty(),
            };
            if t < head.len() {
                assert(ds[t] == head[t]);
            } else {
                assert(ds[t] == spec_scan_diags(items, i + 1)[t - head.len()]);
            }
        }
    }
}

proof fn lemma_param_labels_within(
    root: SynNode,
    ms: Seq<Seq<Option<Seq<usize>>>>,
    k: int,
    key: Seq<char>,
)
    requires
        wf_node(root),
    ensures
        labels_within(param_labels(root, ms, k, key), root.end as int),
    decreases ms.len() - k,
{
    if k < 0 || k >= ms.len() {
    } else {
        lemma_param_labels_within(root, ms, k + 1, key);
        lemma_cap_node_within(root, ms[k], 1);
        let ls = param_labels(root, ms, k, key);
        let rest = param_labels(root, ms, k + 1, key);
        assert forall|t: int| 0 <= t < ls.len() implies label_within(
            #[trigger] ls[t],
            root.end as int,
        ) by {
            if t < ls.len() - rest.len() {
            } else {
                assert(ls[t] == rest[t - (ls.len() - rest.len())]);
            }
        }
    }
}

proof fn lemma_group_plist_within(
    root: SynNode,
    ms: Seq<Seq<Option<Seq<usize>>>>,
    k: int,
    key: Seq<char>,
)
    requires
        wf_node(root),
    ensures
        match group_plist(root, ms, k, key) {
            Some(n) => n.start <= n.end <= root.end,
            None => true,
        },
    decreases ms.len() - k,
{
    if k < 0 || k >= ms.len() {
    } else {
        lemma_cap_node_within(root, ms[k], 3);
        lemma_group_plist_within(root, ms, k + 1, key);
    }
}

proof fn lemma_fn_diags_within(root: SynNode, ms: Seq<Seq<Option<Seq<usize>>>>, k: int)
    requires
        wf_node(root),
    ensures
        diags_within(spec_fn_diags(root, ms, k), root.end as int),
    decreases ms.len() - k,
{
    if k < 0 || k >= ms.len() {
    } else {
        lemma_fn_diags_within(root, ms, k + 1);
        let key = crate::lint::typed_function_signature::fn_name_text(root, ms[k]);
        lemma_param_labels_within(root, ms, 0, key);
        lemma_group_plist_within(root, ms, 0, key);
        let gl = crate::lint::typed_function_signature::group_labels(root, ms, key);
        assert(labels_within(gl, root.end as int)) by {
            let head = if group_ret(root, ms, 0, key) is None {
                seq![
                    LabelV {
                        span: crate::tree::point_end_span(match group_plist(root, ms, 0, key) {
                            Some(pl) => pl,
                            None => root,
                        }),
                        text: Some("function is missing a return type"@),
                        primary: false,
                    },
                ]
            } else {
                Seq::<LabelV>::empty()
            };
            assert forall|t: int| 0 <= t < gl.len() implies label_within(
                #[trigger] gl[t],
                root.end as int,
            ) by {
                if t < head.len() {
                    assert(gl[t] == head[t]);
                } else {
                    assert(gl[t] == param_labels(root, ms, 0, key)[t - head.len()]);
                }
            }
        }
        let ds = spec_fn_diags(root, ms, k);
        let rest = spec_fn_diags(root, ms, k + 1);
        assert forall|t: int| 0 <= t < ds.len() implies labels_within(
            (#[trigger] ds[t]).labels,
            root.end as int,
        ) by {
            if t < ds.len() - rest.len() {
            } else {
                assert(ds[t] == rest[t - (ds.len() - rest.len())]);
            }
        }
    }
}

/// Diagnostic spans always fall within the file: for a well-formed tree,
/// every label of every diagnostic that a full run returns ends at or before
/// the root's end offset.
pub proof fn lemma_run_checks_spans_within(root: SynNode)
    requires
        wf_node(root),
    ensures
        diags_within(spec_run_checks(root), root.end as int),
{
    let limit = root.end as int;
    lemma_header_within(root);
    let ms_top = top_level_matches(root);
    lemma_unknown_within(root, ms_top, 0);
    lemma_ranked_within(root, ms_top, 0);
    lemma_scan_within(spec_ranked(root, ms_top, 0), 0, limit);
    lemma_concat_within(
        spec_unknown_diags(root, ms_top, 0),
        spec_scan_diags(spec_ranked(root, ms_top, 0), 0),
        limit,
    );
    let ms_fn = crate::query_struct::query_spec(
        crate::lint::function_pattern(),
        root,
        Seq::<usize>::empty(),
        crate::query_struct::MatchDepth::RootOrChildren,
        4,
    );
    lemma_fn_diags_within(root, ms_fn, 0);
    let ms_print = crate::query_struct::query_spec(
        crate::lint::print_call_pattern(),
        root,
        Seq::<usize>::empty(),
        crate::query_struct::MatchDepth::Unbounded,
        1,
    );
    lemma_print_within(root, ms_print, 0);
    lemma_concat_within(spec_check_class_name_extends(root), spec_check_export_var_order(root), limit);
    lemma_concat_within(
        spec_check_class_name_extends(root) + spec_check_export_var_order(root),
        spec_check_typed_function_signature(root),
        limit,
    );
    lemma_concat_within(
        (spec_check_class_name_extends(root) + spec_check_export_var_order(root))
            + spec_check_typed_function_signature(root),
        spec_check_no_print_call(root),
        limit,
    );
}

} // verus!

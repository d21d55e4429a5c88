//! Top-level member ordering check.
//!
//! Every direct declaration of the module root is classified by [`Order`]
//! and ranked by [`Order::to_numeric`]. Declarations with no classification
//! get a standalone diagnostic and stay out of the ordering pass; ranked
//! declarations are scanned in source order, and each one is flagged against
//! its nearest predecessor of strictly greater rank, if any.

use vstd::prelude::*;
use vstd::string::StrSliceExecFns;

use crate::diag::{Diagnostic, DiagnosticV, Label, LabelV, Severity};
use crate::query_struct::{
    asgs_len, asgs_valid, binds, binds_from, cap_node, lemma_query_binds, lemma_query_valid,
    node_at_path, pat_view, pats_view, query_spec, run_query, ChildPat, ChildPatV, MatchDepth,
    NodePat, PatV,
};
use crate::tree::{first_field_child, node_at, point_start_span, SynNode};

verus! {

/// The kinds of top-level declaration the style guide orders.
#[derive(Clone, Copy, PartialEq, Eq, Structural, Debug)]
pub enum Order {
    /// `class_name Foo`
    ClassNameStatement,
    /// `extends Bar`
    ExtendsStatement,
    /// A comment starting with `##`
    DocComment,
    /// A plain comment; never ranked
    Comment,
    /// `signal changed(amount: int)`
    SignalStatement,
    /// `enum Direction { LEFT, RIGHT }`
    EnumDefinition,
    /// `const LIMIT := 2`
    ConstStatement,
    /// `@export var speed := 2`
    ExportVariableStatement,
    /// `var speed := 2`
    VariableStatement,
    /// `@onready var sprite = get_node("Sprite")`
    OnReadyVariableStatement,
    /// `static func parse() -> void`
    StaticFunctionDefinition,
    /// `func process() -> void`
    FunctionDefinition,
}

/// The rank of each declaration kind, following the target style guide's
/// code order; plain comments carry no rank.
pub open spec fn spec_to_numeric(o: Order) -> Option<usize> {
    match o {
        Order::ClassNameStatement => Some(200usize),
        Order::ExtendsStatement => Some(300usize),
        Order::DocComment => Some(400usize),
        Order::Comment => None,
        Order::SignalStatement => Some(500usize),
        Order::EnumDefinition => Some(600usize),
        Order::ConstStatement => Some(700usize),
        Order::ExportVariableStatement => Some(900usize),
        Order::VariableStatement => Some(1000usize),
        Order::OnReadyVariableStatement => Some(1100usize),
        Order::StaticFunctionDefinition => Some(1300usize),
        Order::FunctionDefinition => Some(1600usize),
    }
}

impl Order {
    /// An integer giving the relative order between top-level declarations,
    /// or nothing for kinds the ordering pass skips.
    pub fn to_numeric(self) -> (r: Option<usize>)
        ensures
            r == spec_to_numeric(self),
    {
        match self {
            Order::ClassNameStatement => Some(200),
            Order::ExtendsStatement => Some(300),
            Order::DocComment => Some(400),
            Order::Comment => None,
            Order::SignalStatement => Some(500),
            Order::EnumDefinition => Some(600),
            Order::ConstStatement => Some(700),
            Order::ExportVariableStatement => Some(900),
            Order::VariableStatement => Some(1000),
            Order::OnReadyVariableStatement => Some(1100),
            Order::StaticFunctionDefinition => Some(1300),
            Order::FunctionDefinition => Some(1600),
        }
    }
}

/// Whether a comment node is a doc comment: its text starts with `##`.
pub open spec fn spec_is_doc_comment(n: SynNode) -> bool {
    n.text@.len() >= 2 && n.text@[0] == '#' && n.text@[1] == '#'
}

fn is_doc_comment(n: &SynNode) -> (r: bool)
    ensures
        r == spec_is_doc_comment(*n),
{
    let t = n.text();
    if t.unicode_len() >= 2 {
        t.get_char(0) == '#' && t.get_char(1) == '#'
    } else {
        false
    }
}

/// The classification of one top-level declaration node, or nothing for a
/// shape the table does not know.
pub open spec fn spec_definition_order(n: SynNode) -> Option<Order> {
    if n.kind@ == "class_name_statement"@ {
        Some(Order::ClassNameStatement)
    } else if n.kind@ == "extends_statement"@ {
        Some(Order::ExtendsStatement)
    } else if n.kind@ == "comment"@ {
        if spec_is_doc_comment(n) {
            Some(Order::DocComment)
        } else {
            Some(Order::Comment)
        }
    } else if n.kind@ == "signal_statement"@ {
        Some(Order::SignalStatement)
    } else if n.kind@ == "enum_definition"@ {
        Some(Order::EnumDefinition)
    } else if n.kind@ == "const_statement"@ {
        Some(Order::ConstStatement)
    } else if n.kind@ == "variable_statement"@ {
        match first_field_child(n.children@, "annotation"@) {
            None => Some(Order::VariableStatement),
            Some(a) => if a.text@ == "export"@ {
                Some(Order::ExportVariableStatement)
            } else if a.text@ == "onready"@ {
                Some(Order::OnReadyVariableStatement)
            } else {
                None
            },
        }
    } else if n.kind@ == "function_definition"@ {
        if n.children@.len() > 0 && n.children@[0].kind@ == "static_keyword"@ {
            Some(Order::StaticFunctionDefinition)
        } else {
            Some(Order::FunctionDefinition)
        }
    } else {
        None
    }
}

/// Classify one top-level declaration node.
pub fn definition_order(definition: &SynNode) -> (r: Option<Order>)
    ensures
        r == spec_definition_order(*definition),
{
    if definition.kind_is("class_name_statement") {
        Some(Order::ClassNameStatement)
    } else if definition.kind_is("extends_statement") {
        Some(Order::ExtendsStatement)
    } else if definition.kind_is("comment") {
        if is_doc_comment(definition) {
            Some(Order::DocComment)
        } else {
            Some(Order::Comment)
        }
    } else if definition.kind_is("signal_statement") {
        Some(Order::SignalStatement)
    } else if definition.kind_is("enum_definition") {
        Some(Order::EnumDefinition)
    } else if definition.kind_is("const_statement") {
        Some(Order::ConstStatement)
    } else if definition.kind_is("variable_statement") {
        match definition.child_by_field_name("annotation") {
            None => Some(Order::VariableStatement),
            Some(a) => {
                if a.text_is("export") {
                    Some(Order::ExportVariableStatement)
                } else if a.text_is("onready") {
                    Some(Order::OnReadyVariableStatement)
                } else {
                    None
                }
            },
        }
    } else if definition.kind_is("function_definition") {
        match definition.child(0) {
            Some(c) => {
                if c.kind_is("static_keyword") {
                    Some(Order::StaticFunctionDefinition)
                } else {
                    Some(Order::FunctionDefinition)
                }
            },
            None => Some(Order::FunctionDefinition),
        }
    } else {
        None
    }
}

/// The pattern behind the check: every named direct child of the root.
pub open spec fn top_level_pattern() -> PatV {
    PatV {
        kind: None,
        field: None,
        capture: None,
        children: seq![
            ChildPatV {
                optional: false,
                pat: PatV { kind: None, field: None, capture: Some(0), children: Seq::empty() },
            },
        ],
    }
}

/// One ranked declaration: a node together with its rank.
pub struct RankedDecl {
    pub node: SynNode,
    pub rank: usize,
}

/// The diagnostic for a declaration whose shape the table does not know.
pub open spec fn spec_unknown_diag(n: SynNode) -> DiagnosticV {
    DiagnosticV {
        severity: Severity::Warning,
        code: "top-level-order-unknown"@,
        message: "statement has no associated order"@,
        labels: seq![LabelV { span: point_start_span(n), text: Some(n.kind@), primary: false }],
        help: Some("report this declaration kind so it can be ranked"@),
        url: Some("https://github.com/cryeprecision/gdscript-foli/issues"@),
    }
}

/// The unknown-shape diagnostics for the declarations `ms[k..]`, in source
/// order.
pub open spec fn spec_unknown_diags(
    root: SynNode,
    ms: Seq<Seq<Option<Seq<usize>>>>,
    k: int,
) -> Seq<DiagnosticV>
    decreases ms.len() - k,
{
    if k < 0 || k >= ms.len() {
        Seq::empty()
    } else {
        (if spec_definition_order(cap_node(root, ms[k], 0)) is None {
            seq![spec_unknown_diag(cap_node(root, ms[k], 0))]
        } else {
            Seq::empty()
        }) + spec_unknown_diags(root, ms, k + 1)
    }
}

/// The ranked declarations among `ms[k..]`, in source order: those whose
/// classification exists and carries a rank.
pub open spec fn spec_ranked(
    root: SynNode,
    ms: Seq<Seq<Option<Seq<usize>>>>,
    k: int,
) -> Seq<RankedDecl>
    decreases ms.len() - k,
{
    if k < 0 || k >= ms.len() {
        Seq::empty()
    } else {
        (match spec_definition_order(cap_node(root, ms[k], 0)) {
            Some(o) => match spec_to_numeric(o) {
                Some(rk) => seq![RankedDecl { node: cap_node(root, ms[k], 0), rank: rk }],
                None => Seq::empty(),
            },
            None => Seq::empty(),
        }) + spec_ranked(root, ms, k + 1)
    }
}

/// The nearest position at or before `j` whose rank strictly exceeds the
/// rank of `items[i]`.
pub open spec fn higher_pred(items: Seq<RankedDecl>, i: int, j: int) -> Option<int>
    decreases j + 1,
{
    if j < 0 || j >= items.len() || i < 0 || i >= items.len() {
        None
    } else if items[j].rank > items[i].rank {
        Some(j)
    } else {
        higher_pred(items, i, j - 1)
    }
}

/// The diagnostic for one declaration standing before a higher-ranked one.
pub open spec fn spec_order_diag(dj: RankedDecl, di: RankedDecl) -> DiagnosticV {
    DiagnosticV {
        severity: Severity::Warning,
        code: "top-level-order"@,
        message: "invalid declaration order (see link)"@,
        labels: seq![
            LabelV { span: point_start_span(dj.node), text: Some("should come after"@), primary: false },
            LabelV { span: point_start_span(di.node), text: None, primary: true },
        ],
        help: Some("move the bottom one above the top one to fix this"@),
        url: Some(
            "https://docs.godotengine.org/en/stable/tutorials/scripting/gdscript/gdscript_styleguide.html#code-order"@,
        ),
    }
}

/// The ordering diagnostics for the ranked declarations `items[i..]`: each
/// one is flagged against its nearest higher-ranked predecessor, if any.
pub open spec fn spec_scan_diags(items: Seq<RankedDecl>, i: int) -> Seq<DiagnosticV>
    decreases items.len() - i,
{
    if i < 0 || i >= items.len() {
        Seq::empty()
    } else {
        (match higher_pred(items, i, i - 1) {
            Some(j) => seq![spec_order_diag(items[j], items[i])],
            None => Seq::empty(),
        }) + spec_scan_diags(items, i + 1)
    }
}

/// The top-level declaration matches of `root`: one per named direct child.
pub open spec fn top_level_matches(root: SynNode) -> Seq<Seq<Option<Seq<usize>>>> {
    query_spec(top_level_pattern(), root, Seq::<usize>::empty(), MatchDepth::Root, 1)
}

/// What the check returns: first one diagnostic per unclassifiable
/// declaration, then the ordering diagnostics of the ranked ones.
pub open spec fn spec_check_export_var_order(root: SynNode) -> Seq<DiagnosticV> {
    let ms = top_level_matches(root);
    spec_unknown_diags(root, ms, 0) + spec_scan_diags(spec_ranked(root, ms, 0), 0)
}

/// No position at or before `j` outranks `items[i]` when ranks never
/// decrease.
proof fn lemma_higher_pred_none(items: Seq<RankedDecl>, i: int, j: int)
    requires
        forall|a: int, b: int|
            0 <= a < b < items.len() ==> (#[trigger] items[a]).rank <= (#[trigger] items[b]).rank,
        0 <= i < items.len(),
        j < i,
    ensures
        higher_pred(items, i, j) is None,
    decreases j + 1,
{
    if j < 0 || j >= items.len() {
    } else {
        assert(items[j].rank <= items[i].rank);
        lemma_higher_pred_none(items, i, j - 1);
    }
}

/// Order-check idempotence: ranked declarations that already stand in
/// non-decreasing rank order yield no ordering diagnostic.
pub proof fn lemma_order_scan_idempotent(items: Seq<RankedDecl>, i: int)
    requires
        forall|a: int, b: int|
            0 <= a < b < items.len() ==> (#[trigger] items[a]).rank <= (#[trigger] items[b]).rank,
    ensures
        spec_scan_diags(items, i) == Seq::<DiagnosticV>::empty(),
    decreases items.len() - i,
{
    if i < 0 || i >= items.len() {
    } else {
        lemma_higher_pred_none(items, i, i - 1);
        lemma_order_scan_idempotent(items, i + 1);
        assert(spec_scan_diags(items, i) =~= Seq::<DiagnosticV>::empty());
    }
}

/// All declarations the table knows yield no unknown-shape diagnostic.
proof fn lemma_unknown_diags_empty(root: SynNode, ms: Seq<Seq<Option<Seq<usize>>>>, k: int)
    requires
        forall|j: int|
            0 <= j < ms.len() ==> spec_definition_order(cap_node(root, #[trigger] ms[j], 0)) is Some,
    ensures
        spec_unknown_diags(root, ms, k) == Seq::<DiagnosticV>::empty(),
    decreases ms.len() - k,
{
    if k < 0 || k >= ms.len() {
    } else {
        lemma_unknown_diags_empty(root, ms, k + 1);
        assert(spec_unknown_diags(root, ms, k) =~= Seq::<DiagnosticV>::empty());
    }
}

/// Order-check idempotence at the check level: a file whose top-level
/// declarations already satisfy non-decreasing rank produces zero ordering
/// diagnostics; only the unknown-shape diagnostics can remain.
pub proof fn lemma_export_var_order_idempotent(root: SynNode)
    requires
        forall|a: int, b: int|
            0 <= a < b < spec_ranked(root, top_level_matches(root), 0).len() ==> (
            #[trigger] spec_ranked(root, top_level_matches(root), 0)[a]).rank <= (
            #[trigger] spec_ranked(root, top_level_matches(root), 0)[b]).rank,
    ensures
        spec_check_export_var_order(root) == spec_unknown_diags(root, top_level_matches(root), 0),
{
    let ms = top_level_matches(root);
    lemma_order_scan_idempotent(spec_ranked(root, ms, 0), 0);
    assert(spec_check_export_var_order(root) =~= spec_unknown_diags(root, ms, 0));
}

/// A file whose top-level declarations all classify and already satisfy
/// non-decreasing rank produces no diagnostic at all from this check.
pub proof fn lemma_export_var_order_clean(root: SynNode)
    requires
        forall|j: int|
            0 <= j < top_level_matches(root).len() ==> spec_definition_order(
                cap_node(root, #[trigger] top_level_matches(root)[j], 0),
            ) is Some,
        forall|a: int, b: int|
            0 <= a < b < spec_ranked(root, top_level_matches(root), 0).len() ==> (
            #[trigger] spec_ranked(root, top_level_matches(root), 0)[a]).rank <= (
            #[trigger] spec_ranked(root, top_level_matches(root), 0)[b]).rank,
    ensures
        spec_check_export_var_order(root) == Seq::<DiagnosticV>::empty(),
{
    let ms = top_level_matches(root);
    lemma_unknown_diags_empty(root, ms, 0);
    lemma_export_var_order_idempotent(root);
    assert(spec_check_export_var_order(root) =~= Seq::<DiagnosticV>::empty());
}

/// Build the executable pattern and relate it to its specification image.
fn build_top_level_pattern() -> (r: NodePat)
    ensures
        pat_view(r) == top_level_pattern(),
{
    let decl = ChildPat {
        optional: false,
        pat: NodePat { kind: None, field: None, capture: Some(0), children: Vec::new() },
    };
    let mut children: Vec<ChildPat> = Vec::new();
    children.push(decl);
    let r = NodePat { kind: None, field: None, capture: None, children };
    proof {
        let cs = r.children@;
        assert(cs.len() == 1);
        assert(cs.drop_first() =~= Seq::<ChildPat>::empty());
        assert(pats_view(cs.drop_first()) =~= Seq::<ChildPatV>::empty());
        assert(pats_view(cs[0].pat.children@) =~= Seq::<ChildPatV>::empty());
        assert(pats_view(cs) == seq![
            ChildPatV { optional: cs[0].optional, pat: pat_view(cs[0].pat) },
        ] + pats_view(cs.drop_first()));
        assert(pat_view(r).kind =~~= top_level_pattern().kind);
        assert(pat_view(r).field =~~= top_level_pattern().field);
        assert(pat_view(r).capture =~~= top_level_pattern().capture);
        assert(pat_view(r).children =~~= top_level_pattern().children);
        assert(pat_view(r) =~~= top_level_pattern());
    }
    r
}

/// Check the order of the root's declarations: report every declaration the
/// classification table does not know, then flag each ranked declaration
/// that stands after a declaration of strictly greater rank, against the
/// nearest such predecessor.
pub fn check_export_var_order(root: &SynNode) -> (r: Vec<Diagnostic>)
    ensures
        r.deep_view() == spec_check_export_var_order(*root),
{
    let pat = build_top_level_pattern();
    let ghost pv = top_level_pattern();
    proof {
        assert(binds(pv, 0)) by {
            assert(binds(pv.children[0].pat, 0));
            assert(binds_from(pv.children, 0, 0));
        }
        assert(node_at(*root, Seq::<usize>::empty()) == Some(*root));
        lemma_query_binds(pv, *root, Seq::<usize>::empty(), MatchDepth::Root, 1, 0);
        lemma_query_valid(pv, *root, Seq::<usize>::empty(), *root, MatchDepth::Root, 1);
    }
    let recs = run_query(&pat, root, MatchDepth::Root, 1);
    let ghost ms = query_spec(pv, *root, Seq::<usize>::empty(), MatchDepth::Root, 1);

    let mut out: Vec<Diagnostic> = Vec::new();
    let mut ranked: Vec<(&SynNode, usize)> = Vec::new();
    let mut k: usize = 0;
    while k < recs.len()
        invariant
            k <= recs@.len(),
            recs.deep_view() == ms,
            ms == query_spec(pv, *root, Seq::<usize>::empty(), MatchDepth::Root, 1),
            pv == top_level_pattern(),
            forall|j: int| 0 <= j < recs@.len() ==> (#[trigger] recs@[j]).caps@.len() == 1,
            forall|j: int| 0 <= j < ms.len() ==> (#[trigger] ms[j])[0] is Some,
            asgs_valid(*root, ms),
            asgs_len(ms, 1),
            out.deep_view() + spec_unknown_diags(*root, ms, k as int) == spec_unknown_diags(
                *root,
                ms,
                0,
            ),
            ranked_view(ranked@) + spec_ranked(*root, ms, k as int) == spec_ranked(*root, ms, 0),
        decreases recs@.len() - k,
    {
        let rec = &recs[k];
        proof {
            assert(rec.deep_view() == ms[k as int]);
            assert(ms[k as int][0] is Some);
            assert(node_at(*root, ms[k as int][0]->0) is Some);
        }
        let pd = rec.required(0);
        let n = node_at_path(root, pd);
        proof {
            assert(*n == cap_node(*root, ms[k as int], 0));
        }
        let ghost odeep = out.deep_view();
        let ghost rdeep = ranked_view(ranked@);
        match definition_order(n) {
            None => {
                let mut labels: Vec<Label> = Vec::new();
                labels.push(
                    Label {
                        span: n.to_source_point_start(),
                        text: Some(n.kind.clone()),
                        primary: false,
                    },
                );
                let d = Diagnostic {
                    severity: Severity::Warning,
                    code: "top-level-order-unknown".to_owned(),
                    message: "statement has no associated order".to_owned(),
                    labels,
                    help: Some("report this declaration kind so it can be ranked".to_owned()),
                    url: Some("https://github.com/cryeprecision/gdscript-foli/issues".to_owned()),
                };
                proof {
                    assert(d.deep_view().labels =~= spec_unknown_diag(*n).labels);
                    assert(d.deep_view() =~~= spec_unknown_diag(*n));
                }
                out.push(d);
            },
            Some(o) => {
                match o.to_numeric() {
                    Some(rk) => {
                        ranked.push((n, rk));
                        proof {
                            assert(ranked_view(ranked@) =~= rdeep + seq![
                                RankedDecl { node: *n, rank: rk },
                            ]);
                        }
                    },
                    None => {},
                }
            },
        }
        proof {
            assert(spec_unknown_diags(*root, ms, k as int) == (if spec_definition_order(
                cap_node(*root, ms[k as int], 0),
            ) is None {
                seq![spec_unknown_diag(cap_node(*root, ms[k as int], 0))]
            } else {
                Seq::<DiagnosticV>::empty()
            }) + spec_unknown_diags(*root, ms, k as int + 1));
            assert(spec_ranked(*root, ms, k as int) == (match spec_definition_order(
                cap_node(*root, ms[k as int], 0),
            ) {
                Some(o) => match spec_to_numeric(o) {
                    Some(rk) => seq![
                        RankedDecl { node: cap_node(*root, ms[k as int], 0), rank: rk },
                    ],
                    None => Seq::<RankedDecl>::empty(),
                },
                None => Seq::<RankedDecl>::empty(),
            }) + spec_ranked(*root, ms, k as int + 1));
            assert(out.deep_view() + spec_unknown_diags(*root, ms, k as int + 1) =~= spec_unknown_diags(
                *root,
                ms,
                0,
            ));
            assert(ranked_view(ranked@) + spec_ranked(*root, ms, k as int + 1) =~= spec_ranked(
                *root,
                ms,
                0,
            ));
        }
        k = k + 1;
    }
    proof {
        assert(spec_unknown_diags(*root, ms, recs@.len() as int) =~= Seq::<DiagnosticV>::empty());
        assert(spec_ranked(*root, ms, recs@.len() as int) =~= Seq::<RankedDecl>::empty());
        assert(out.deep_view() =~= spec_unknown_diags(*root, ms, 0));
        assert(ranked_view(ranked@) =~= spec_ranked(*root, ms, 0));
    }

    let ghost items = spec_ranked(*root, ms, 0);
    let ghost unknowns = spec_unknown_diags(*root, ms, 0);
    let mut i: usize = 0;
    while i < ranked.len()
        invariant
            i <= ranked@.len(),
            items == ranked_view(ranked@),
            unknowns == spec_unknown_diags(*root, ms, 0),
            out.deep_view() + spec_scan_diags(items, i as int) == unknowns + spec_scan_diags(
                items,
                0,
            ),
        decreases ranked@.len() - i,
    {
        let mut found: Option<usize> = None;
        let mut t: usize = 0;
        while t < i
            invariant
                t <= i < ranked@.len(),
                items == ranked_view(ranked@),
                match found {
                    Some(fj) => fj < t && higher_pred(items, i as int, t as int - 1) == Some(
                        fj as int,
                    ),
                    None => higher_pred(items, i as int, t as int - 1) is None,
                },
            decreases i - t,
        {
            if ranked[t].1 > ranked[i].1 {
                found = Some(t);
            }
            proof {
                assert(items[t as int].rank == ranked@[t as int].1);
                assert(items[i as int].rank == ranked@[i as int].1);
            }
            t = t + 1;
        }
        let ghost odeep = out.deep_view();
        match found {
            Some(fj) => {
                let dj = ranked[fj].0;
                let di = ranked[i].0;
                let mut labels: Vec<Label> = Vec::new();
                labels.push(
                    Label {
                        span: dj.to_source_point_start(),
                        text: Some("should come after".to_owned()),
                        primary: false,
                    },
                );
                labels.push(
                    Label { span: di.to_source_point_start(), text: None, primary: true },
                );
                let d = Diagnostic {
                    severity: Severity::Warning,
                    code: "top-level-order".to_owned(),
                    message: "invalid declaration order (see link)".to_owned(),
                    labels,
                    help: Some("move the bottom one above the top one to fix this".to_owned()),
                    url: Some(
                        "https://docs.godotengine.org/en/stable/tutorials/scripting/gdscript/gdscript_styleguide.html#code-order".to_owned(),
                    ),
                };
                proof {
                    assert(items[fj as int].node == *ranked@[fj as int].0);
                    assert(items[i as int].node == *ranked@[i as int].0);
                    assert(d.deep_view().labels =~= spec_order_diag(
                        items[fj as int],
                        items[i as int],
                    ).labels);
                    assert(d.deep_view() =~~= spec_order_diag(items[fj as int], items[i as int]));
                }
                out.push(d);
            },
            None => {},
        }
        proof {
            assert(spec_scan_diags(items, i as int) == (match higher_pred(
                items,
                i as int,
                i as int - 1,
            ) {
                Some(j) => seq![spec_order_diag(items[j], items[i as int])],
                None => Seq::<DiagnosticV>::empty(),
            }) + spec_scan_diags(items, i as int + 1));
            assert(out.deep_view() + spec_scan_diags(items, i as int + 1) =~= unknowns
                + spec_scan_diags(items, 0));
        }
        i = i + 1;
    }
    proof {
        assert(spec_scan_diags(items, ranked@.len() as int) =~= Seq::<DiagnosticV>::empty());
        assert(out.deep_view() =~= spec_check_export_var_order(*root));
    }
    out
}

/// The ranked declarations that an executable pair list stands for.
pub open spec fn ranked_view(s: Seq<(&SynNode, usize)>) -> Seq<RankedDecl> {
    s.map_values(|t: (&SynNode, usize)| RankedDecl { node: *t.0, rank: t.1 })
}

} // verus!

verus! {

/// One assignment per named child of `n` at positions `from` and later,
/// each binding slot 0 to that child's path.
pub open spec fn named_child_asgs(n: SynNode, from: int) -> Seq<Seq<Option<Seq<usize>>>>
    decreases n.children@.len() - from,
{
    if from < 0 || from >= n.children@.len() {
        Seq::empty()
    } else {
        (if n.children@[from].named {
            seq![seq![Some(seq![from as usize])]]
        } else {
            Seq::<Seq<Option<Seq<usize>>>>::empty()
        }) + named_child_asgs(n, from + 1)
    }
}

proof fn lemma_top_takes(root: SynNode, from: int)
    requires
        0 <= from <= root.children@.len(),
    ensures
        crate::query_struct::takes_from(
            top_level_pattern().children,
            root,
            Seq::<usize>::empty(),
            0,
            from,
            1,
        ) == named_child_asgs(root, from),
    decreases root.children@.len() - from,
{
    let pats = top_level_pattern().children;
    let p0 = Seq::<usize>::empty();
    if from >= root.children@.len() {
        assert(crate::query_struct::takes_from(pats, root, p0, 0, from, 1)
            =~= named_child_asgs(root, from));
    } else {
        lemma_top_takes(root, from + 1);
        let c = root.children@[from];
        assert(root.children@.len() <= usize::MAX) by {
            assert(root.children.len() == root.children@.len());
        }
        assert((from as usize) as int == from);
        let p1 = p0.push(from as usize);
        let leaf = pats[0].pat;
        let a = crate::query_struct::pat_matches(leaf, c, p1, 1);
        let b = crate::query_struct::pats_matches(pats, root, p0, 1, from + 1, 1);
        assert(b == seq![crate::query_struct::empty_asg(1)]);
        if c.named {
            assert(crate::query_struct::local_match(leaf, c));
            let base = crate::query_struct::empty_asg(1).update(0, Some(p1));
            assert(crate::query_struct::pats_matches(leaf.children, c, p1, 0, 0, 1) == seq![
                crate::query_struct::empty_asg(1),
            ]);
            assert(a.len() == 1);
            assert(a[0] == crate::query_struct::asg_merge(
                base,
                crate::query_struct::empty_asg(1),
            ));
            assert(a[0] =~= base);
            let cm = crate::query_struct::cross_merge(a, b);
            assert(cm == b.map_values(
                |y: Seq<Option<Seq<usize>>>| crate::query_struct::asg_merge(a[0], y),
            ) + crate::query_struct::cross_merge(a.drop_first(), b));
            assert(a.drop_first().len() == 0);
            assert(crate::query_struct::cross_merge(a.drop_first(), b)
                =~= Seq::<Seq<Option<Seq<usize>>>>::empty());
            assert(cm.len() == 1);
            assert(cm[0] == crate::query_struct::asg_merge(
                a[0],
                crate::query_struct::empty_asg(1),
            ));
            assert(cm[0] =~= base);
            assert(base =~= seq![Some(seq![from as usize])]);
            assert(crate::query_struct::takes_from(pats, root, p0, 0, from, 1) == cm
                + crate::query_struct::takes_from(pats, root, p0, 0, from + 1, 1));
            assert(cm =~= seq![seq![Some(seq![from as usize])]]);
            assert(named_child_asgs(root, from) == seq![seq![Some(seq![from as usize])]]
                + named_child_asgs(root, from + 1));
            assert(crate::query_struct::takes_from(pats, root, p0, 0, from, 1)
                =~= named_child_asgs(root, from));
        } else {
            assert(!crate::query_struct::local_match(leaf, c));
            assert(a =~= Seq::<Seq<Option<Seq<usize>>>>::empty());
            assert(crate::query_struct::cross_merge(a, b)
                =~= Seq::<Seq<Option<Seq<usize>>>>::empty());
            assert(crate::query_struct::takes_from(pats, root, p0, 0, from, 1)
                =~= named_child_asgs(root, from));
        }
    }
}

/// The ordering check's input is exactly one match per named direct child
/// of the root, in source order; an unnamed root yields no match at all.
pub proof fn lemma_top_level_matches(root: SynNode)
    ensures
        root.named ==> top_level_matches(root) == named_child_asgs(root, 0),
        !root.named ==> top_level_matches(root) == Seq::<Seq<Option<Seq<usize>>>>::empty(),
{
    let pv = top_level_pattern();
    let p0 = Seq::<usize>::empty();
    let pm = crate::query_struct::pat_matches(pv, root, p0, 1);
    assert(top_level_matches(root) =~= pm);
    if crate::query_struct::local_match(pv, root) {
        let ways = crate::query_struct::pats_matches(pv.children, root, p0, 0, 0, 1);
        lemma_top_takes(root, 0);
        assert(ways == crate::query_struct::takes_from(pv.children, root, p0, 0, 0, 1));
        crate::query_struct::lemma_pats_lens(pv.children, root, p0, 0, 0, 1);
        assert(pm.len() == ways.len());
        assert forall|k: int| 0 <= k < pm.len() implies pm[k] == ways[k] by {
            assert(pm[k] == crate::query_struct::asg_merge(
                crate::query_struct::empty_asg(1),
                ways[k],
            ));
            assert(ways[k].len() == 1);
            assert(crate::query_struct::asg_merge(crate::query_struct::empty_asg(1), ways[k])
                =~= ways[k]);
        }
        assert(pm =~= ways);
        assert(top_level_matches(root) == named_child_asgs(root, 0));
    } else {
        assert(pm =~= Seq::<Seq<Option<Seq<usize>>>>::empty());
    }
}

} // verus!

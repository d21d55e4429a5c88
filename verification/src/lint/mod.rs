//! The rule engine: four independent style checks, each a pure function from
//! a syntax tree to an ordered sequence of diagnostics, and [`run_checks`],
//! which concatenates their findings.

mod class_name_extends;
mod export_var_order;
mod no_print_call;
mod span_bounds;
mod typed_function_signature;

pub use span_bounds::diags_within;
pub use span_bounds::label_within;
pub use span_bounds::labels_within;
pub use span_bounds::lemma_run_checks_spans_within;

pub use class_name_extends::check_class_name_extends;
pub use class_name_extends::class_name_asgs;
pub use class_name_extends::class_name_extends_pattern;
pub use class_name_extends::header_pair_asgs;
pub use class_name_extends::lemma_header_matches;
pub use class_name_extends::spec_check_class_name_extends;
pub use class_name_extends::spec_header_diag;

pub use export_var_order::check_export_var_order;
pub use export_var_order::definition_order;
pub use export_var_order::higher_pred;
pub use export_var_order::lemma_export_var_order_clean;
pub use export_var_order::lemma_export_var_order_idempotent;
pub use export_var_order::lemma_order_scan_idempotent;
pub use export_var_order::lemma_top_level_matches;
pub use export_var_order::named_child_asgs;
pub use export_var_order::spec_check_export_var_order;
pub use export_var_order::spec_definition_order;
pub use export_var_order::spec_ranked;
pub use export_var_order::spec_scan_diags;
pub use export_var_order::spec_to_numeric;
pub use export_var_order::spec_unknown_diags;
pub use export_var_order::top_level_matches;
pub use export_var_order::top_level_pattern;
pub use export_var_order::Order;
pub use export_var_order::RankedDecl;

pub use no_print_call::args_asgs;
pub use no_print_call::call_site_asgs;
pub use no_print_call::call_site_walk;
pub use no_print_call::callee_asgs;
pub use no_print_call::check_no_print_call;
pub use no_print_call::lemma_print_matches;
pub use no_print_call::print_call_pattern;
pub use no_print_call::spec_check_no_print_call;
pub use no_print_call::spec_print_diag;
pub use no_print_call::spec_print_diags;

pub use typed_function_signature::check_typed_function_signature;
pub use typed_function_signature::function_pattern;
pub use typed_function_signature::spec_check_typed_function_signature;

use vstd::prelude::*;

use crate::diag::{Diagnostic, DiagnosticV};
use crate::tree::{wf_node, SynNode};

verus! {

/// What one full run over a file returns: the four checks' diagnostics,
/// concatenated in a fixed order.
pub open spec fn spec_run_checks(root: SynNode) -> Seq<DiagnosticV> {
    spec_check_class_name_extends(root) + spec_check_export_var_order(root)
        + spec_check_typed_function_signature(root) + spec_check_no_print_call(root)
}

/// Run every check over one file's tree and collect the diagnostics, in the
/// order the checks run and, within a check, in the order it produced them.
pub fn run_checks(root: &SynNode) -> (r: Vec<Diagnostic>)
    requires
        wf_node(*root),
    ensures
        r.deep_view() == spec_run_checks(*root),
{
    let mut out = check_class_name_extends(root);
    let ghost d1 = out.deep_view();
    let mut b = check_export_var_order(root);
    let ghost d2 = b.deep_view();
    out.append(&mut b);
    proof {
        assert(out.deep_view() =~= d1 + d2);
    }
    let ghost d12 = out.deep_view();
    let mut c = check_typed_function_signature(root);
    let ghost d3 = c.deep_view();
    out.append(&mut c);
    proof {
        assert(out.deep_view() =~= d12 + d3);
    }
    let ghost d123 = out.deep_view();
    let mut d = check_no_print_call(root);
    let ghost d4 = d.deep_view();
    out.append(&mut d);
    proof {
        assert(out.deep_view() =~= d123 + d4);
        assert(((d1 + d2) + d3) + d4 =~= spec_run_checks(*root));
    }
    out
}

/// For a fixed tree, repeated runs return the same diagnostics in the same
/// order: every check's result is a function of the tree alone.
pub proof fn lemma_checks_deterministic(
    root: SynNode,
    r1: Seq<DiagnosticV>,
    r2: Seq<DiagnosticV>,
)
    requires
        r1 == spec_run_checks(root),
        r2 == spec_run_checks(root),
    ensures
        r1 == r2,
{
}

} // verus!

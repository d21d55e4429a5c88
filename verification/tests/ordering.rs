//! Ordering-check tests over hand-built trees: classification of each
//! declaration kind, rank values, the unknown-shape diagnostic, and the
//! nearest-higher-predecessor tie-break.

use gdscript_foli::diag::Diagnostic;
use gdscript_foli::lint::{check_export_var_order, definition_order, Order};
use gdscript_foli::tree::SynNode;

fn leaf(kind: &str, start: usize, end: usize, text: &str) -> SynNode {
    SynNode {
        kind: kind.to_string(),
        named: true,
        field: None,
        start,
        end,
        text: text.to_string(),
        children: Vec::new(),
    }
}

fn with_children(kind: &str, start: usize, end: usize, children: Vec<SynNode>) -> SynNode {
    SynNode {
        kind: kind.to_string(),
        named: true,
        field: None,
        start,
        end,
        text: String::new(),
        children,
    }
}

fn with_field(mut n: SynNode, field: &str) -> SynNode {
    n.field = Some(field.to_string());
    n
}

fn source_root(children: Vec<SynNode>) -> SynNode {
    let end = children.last().map(|c| c.end).unwrap_or(0);
    with_children("source", 0, end, children)
}

#[test]
fn rank_table_values() {
    assert_eq!(Order::ClassNameStatement.to_numeric(), Some(200));
    assert_eq!(Order::ExtendsStatement.to_numeric(), Some(300));
    assert_eq!(Order::DocComment.to_numeric(), Some(400));
    assert_eq!(Order::Comment.to_numeric(), None);
    assert_eq!(Order::SignalStatement.to_numeric(), Some(500));
    assert_eq!(Order::EnumDefinition.to_numeric(), Some(600));
    assert_eq!(Order::ConstStatement.to_numeric(), Some(700));
    assert_eq!(Order::ExportVariableStatement.to_numeric(), Some(900));
    assert_eq!(Order::VariableStatement.to_numeric(), Some(1000));
    assert_eq!(Order::OnReadyVariableStatement.to_numeric(), Some(1100));
    assert_eq!(Order::StaticFunctionDefinition.to_numeric(), Some(1300));
    assert_eq!(Order::FunctionDefinition.to_numeric(), Some(1600));
}

#[test]
fn classification_table() {
    assert_eq!(
        definition_order(&leaf("class_name_statement", 0, 10, "class_name")),
        Some(Order::ClassNameStatement)
    );
    assert_eq!(
        definition_order(&leaf("extends_statement", 0, 7, "extends")),
        Some(Order::ExtendsStatement)
    );
    assert_eq!(
        definition_order(&leaf("comment", 0, 6, "## doc")),
        Some(Order::DocComment)
    );
    assert_eq!(
        definition_order(&leaf("comment", 0, 6, "# note")),
        Some(Order::Comment)
    );
    assert_eq!(
        definition_order(&leaf("signal_statement", 0, 8, "signal s")),
        Some(Order::SignalStatement)
    );
    assert_eq!(
        definition_order(&leaf("enum_definition", 0, 4, "enum")),
        Some(Order::EnumDefinition)
    );
    assert_eq!(
        definition_order(&leaf("const_statement", 0, 5, "const")),
        Some(Order::ConstStatement)
    );
    assert_eq!(
        definition_order(&leaf("variable_statement", 0, 3, "var")),
        Some(Order::VariableStatement)
    );
    let export_var = with_children(
        "variable_statement",
        0,
        15,
        vec![with_field(leaf("annotation", 0, 7, "export"), "annotation")],
    );
    assert_eq!(
        definition_order(&export_var),
        Some(Order::ExportVariableStatement)
    );
    let onready_var = with_children(
        "variable_statement",
        0,
        16,
        vec![with_field(leaf("annotation", 0, 8, "onready"), "annotation")],
    );
    assert_eq!(
        definition_order(&onready_var),
        Some(Order::OnReadyVariableStatement)
    );
    let odd_var = with_children(
        "variable_statement",
        0,
        14,
        vec![with_field(leaf("annotation", 0, 6, "tool"), "annotation")],
    );
    assert_eq!(definition_order(&odd_var), None);
    let static_fn = with_children(
        "function_definition",
        0,
        20,
        vec![leaf("static_keyword", 0, 6, "static")],
    );
    assert_eq!(
        definition_order(&static_fn),
        Some(Order::StaticFunctionDefinition)
    );
    let plain_fn = with_children("function_definition", 0, 20, vec![leaf("name", 5, 6, "f")]);
    assert_eq!(definition_order(&plain_fn), Some(Order::FunctionDefinition));
    assert_eq!(definition_order(&leaf("mystery_statement", 0, 5, "what")), None);
}

#[test]
fn unknown_declaration_reported_once_and_skipped() {
    // func (1600), an unknown shape, class_name (200): the unknown shape is
    // reported once and takes part in no ordering comparison.
    let root = source_root(vec![
        with_children("function_definition", 0, 10, vec![leaf("name", 5, 6, "f")]),
        leaf("mystery_statement", 11, 20, "whatever"),
        leaf("class_name_statement", 21, 35, "class_name Foo"),
    ]);
    let diags = check_export_var_order(&root);
    assert_eq!(diags.len(), 2);
    let unknown: Vec<&Diagnostic> = diags
        .iter()
        .filter(|d| d.code == "top-level-order-unknown")
        .collect();
    assert_eq!(unknown.len(), 1);
    assert_eq!(unknown[0].labels.len(), 1);
    assert_eq!(unknown[0].labels[0].span.offset, 11);
    assert_eq!(unknown[0].labels[0].text.as_deref(), Some("mystery_statement"));
    let ordering: Vec<&Diagnostic> = diags
        .iter()
        .filter(|d| d.code == "top-level-order")
        .collect();
    assert_eq!(ordering.len(), 1);
    // The ordering diagnostic pairs class_name with the function definition,
    // never with the unknown declaration.
    assert_eq!(ordering[0].labels[0].span.offset, 0);
    assert_eq!(ordering[0].labels[1].span.offset, 21);
}

#[test]
fn scan_flags_nearest_higher_ranked_predecessor() {
    // Ranks in source order: 900, 200, 1600. The rank-200 item is flagged
    // against the rank-900 item right before it, not anything further back,
    // and the rank-1600 item is not flagged at all.
    let export_var = with_children(
        "variable_statement",
        0,
        15,
        vec![with_field(leaf("annotation", 0, 7, "export"), "annotation")],
    );
    let root = source_root(vec![
        export_var,
        leaf("class_name_statement", 16, 30, "class_name Foo"),
        with_children("function_definition", 31, 45, vec![leaf("name", 36, 37, "f")]),
    ]);
    let diags = check_export_var_order(&root);
    assert_eq!(diags.len(), 1);
    let d = &diags[0];
    assert_eq!(d.code, "top-level-order");
    assert_eq!(d.labels.len(), 2);
    // First label: the rank-900 predecessor that should come after.
    assert_eq!(d.labels[0].span.offset, 0);
    assert_eq!(d.labels[0].text.as_deref(), Some("should come after"));
    assert!(!d.labels[0].primary);
    // Primary label: the rank-200 item that was scanned.
    assert_eq!(d.labels[1].span.offset, 16);
    assert!(d.labels[1].primary);
}

#[test]
fn comments_are_skipped_entirely_by_the_scan() {
    // A plain comment between two misordered declarations neither blocks the
    // scan nor is ever flagged itself.
    let root = source_root(vec![
        with_children("function_definition", 0, 10, vec![leaf("name", 5, 6, "f")]),
        leaf("comment", 11, 17, "# note"),
        leaf("const_statement", 18, 30, "const X := 1"),
    ]);
    let diags = check_export_var_order(&root);
    assert_eq!(diags.len(), 1);
    assert_eq!(diags[0].code, "top-level-order");
    assert_eq!(diags[0].labels[0].span.offset, 0);
    assert_eq!(diags[0].labels[1].span.offset, 18);
}

#[test]
fn doc_comments_are_ranked() {
    // A doc comment (rank 400) after a signal (rank 500) is flagged.
    let root = source_root(vec![
        leaf("signal_statement", 0, 8, "signal s"),
        leaf("comment", 9, 15, "## doc"),
    ]);
    let diags = check_export_var_order(&root);
    assert_eq!(diags.len(), 1);
    assert_eq!(diags[0].code, "top-level-order");
}

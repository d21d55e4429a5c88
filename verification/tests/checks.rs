//! End-to-end tests: GDScript sources are parsed with tree-sitter, converted
//! into the library's tree model, and run through the checks.

use gdscript_foli::diag::Diagnostic;
use gdscript_foli::lint::{
    check_class_name_extends, check_export_var_order, check_no_print_call,
    check_typed_function_signature, run_checks,
};
use gdscript_foli::query_struct::{
    node_at_path, run_query, ChildPat, MatchDepth, NodePat,
};
use gdscript_foli::tree::SynNode;

fn convert_node(node: tree_sitter::Node, field: Option<String>, src: &str) -> SynNode {
    let mut children = Vec::new();
    for i in 0..node.child_count() {
        let ch = node.child(i).unwrap();
        let f = node.field_name_for_child(i).map(|s| s.to_string());
        children.push(convert_node(ch, f, src));
    }
    SynNode {
        kind: node.kind().to_string(),
        named: node.is_named(),
        field,
        start: node.start_byte(),
        end: node.end_byte(),
        text: node.utf8_text(src.as_bytes()).unwrap().to_string(),
        children,
    }
}

fn parse_gd(src: &str) -> SynNode {
    let mut parser = tree_sitter::Parser::new();
    parser
        .set_language(&tree_sitter_gdscript::LANGUAGE.into())
        .unwrap();
    let tree = parser.parse(src.as_bytes(), None).unwrap();
    assert!(!tree.root_node().has_error(), "parse error in test source");
    convert_node(tree.root_node(), None, src)
}

fn find_child<'a>(root: &'a SynNode, kind: &str) -> &'a SynNode {
    root.children
        .iter()
        .find(|c| c.kind == kind)
        .expect("child of that kind")
}

/// The query of the multi-capture tests: a variable statement whose value is
/// a call, capturing the callee and, one match per argument, each argument.
fn multi_capture_pattern() -> NodePat {
    NodePat {
        kind: Some("variable_statement".to_string()),
        field: None,
        capture: None,
        children: vec![ChildPat {
            optional: false,
            pat: NodePat {
                kind: Some("call".to_string()),
                field: Some("value".to_string()),
                capture: None,
                children: vec![
                    ChildPat {
                        optional: false,
                        pat: NodePat {
                            kind: None,
                            field: None,
                            capture: Some(0),
                            children: vec![],
                        },
                    },
                    ChildPat {
                        optional: false,
                        pat: NodePat {
                            kind: Some("arguments".to_string()),
                            field: None,
                            capture: None,
                            children: vec![ChildPat {
                                optional: true,
                                pat: NodePat {
                                    kind: None,
                                    field: None,
                                    capture: Some(1),
                                    children: vec![],
                                },
                            }],
                        },
                    },
                ],
            },
        }],
    }
}

fn collect_captures(src: &str) -> Vec<(usize, u32, std::ops::Range<usize>)> {
    let tree = parse_gd(src);
    let pat = multi_capture_pattern();
    let recs = run_query(&pat, &tree, MatchDepth::Unbounded, 2);
    let mut results = Vec::new();
    for (mi, rec) in recs.iter().enumerate() {
        for (ci, cap) in rec.caps.iter().enumerate() {
            if let Some(path) = cap {
                let node = node_at_path(&tree, path);
                results.push((mi, ci as u32, node.start..node.end));
            }
        }
    }
    results
}

#[test]
fn multi_capture_some() {
    let code = r#"var a := foo(1, 1 + 1, 2)"#;
    let results = collect_captures(code);
    assert_eq!(
        results,
        vec![
            (0, 0, 9..12),  // Match 0, Capture 0: "foo"
            (0, 1, 13..14), // Match 0, Capture 1: "1"
            (1, 0, 9..12),  // Match 1, Capture 0: "foo"
            (1, 1, 16..21), // Match 1, Capture 1: "1 + 1"
            (2, 0, 9..12),  // Match 2, Capture 0: "foo"
            (2, 1, 23..24)  // Match 2, Capture 1: "2"
        ]
    );
}

#[test]
fn multi_capture_none() {
    let code = r#"var a := foo()"#;
    let results = collect_captures(code);
    assert_eq!(
        results,
        vec![
            (0, 0, 9..12) // Match 0, Capture 0: "foo"
        ]
    );
}

#[test]
fn header_swap_flagged() {
    let src = "extends Bar\nclass_name Foo\n";
    let tree = parse_gd(src);
    let diags = check_class_name_extends(&tree);
    assert_eq!(diags.len(), 1);
    let d = &diags[0];
    assert_eq!(d.code, "class-name-extends");
    assert_eq!(d.labels.len(), 2);
    let ext = find_child(&tree, "extends_statement");
    let cn = find_child(&tree, "class_name_statement");
    assert_eq!(d.labels[0].span.offset, ext.start);
    assert_eq!(d.labels[0].span.len, ext.end - ext.start);
    assert_eq!(d.labels[1].span.offset, cn.start);
    assert_eq!(d.labels[1].span.len, cn.end - cn.start);
}

#[test]
fn header_correct_order_clean() {
    let src = "class_name Foo\nextends Bar\n";
    let tree = parse_gd(src);
    let diags = check_class_name_extends(&tree);
    assert_eq!(diags.len(), 0);
}

#[test]
fn partially_typed_signature_flagged_once() {
    let src = "func f(a, b: int) -> void:\n\tpass\n";
    let tree = parse_gd(src);
    let diags = check_typed_function_signature(&tree);
    assert_eq!(diags.len(), 1);
    let d = &diags[0];
    assert_eq!(d.code, "typed-function-signature");
    assert_eq!(d.labels.len(), 1);
    let label = &d.labels[0];
    assert_eq!(
        label.text.as_deref(),
        Some("parameter is missing a type annotation")
    );
    // The label points at the untyped parameter `a`.
    let a_offset = src.find("a,").unwrap();
    assert_eq!(label.span.offset, a_offset);
    assert_eq!(label.span.len, 1);
}

#[test]
fn fully_typed_signature_clean() {
    let src = "func f(a: int) -> void:\n\tpass\n";
    let tree = parse_gd(src);
    let diags = check_typed_function_signature(&tree);
    assert_eq!(diags.len(), 0);
}

#[test]
fn missing_return_type_flagged() {
    let src = "func f(a: int):\n\tpass\n";
    let tree = parse_gd(src);
    let diags = check_typed_function_signature(&tree);
    assert_eq!(diags.len(), 1);
    assert_eq!(diags[0].labels.len(), 1);
    assert_eq!(
        diags[0].labels[0].text.as_deref(),
        Some("function is missing a return type")
    );
}

#[test]
fn nested_print_call_flagged() {
    let src = "func f() -> void:\n\tif true:\n\t\tif true:\n\t\t\tprint(1)\n";
    let tree = parse_gd(src);
    let diags = check_no_print_call(&tree);
    assert_eq!(diags.len(), 1);
    let d = &diags[0];
    assert_eq!(d.code, "no-print");
    let print_offset = src.find("print").unwrap();
    assert_eq!(d.labels[0].span.offset, print_offset);
    assert_eq!(d.labels[0].span.len, "print".len());
}

#[test]
fn two_print_calls_two_diagnostics() {
    let src = "func f() -> void:\n\tprint(1)\n\tif true:\n\t\tprint(2)\n";
    let tree = parse_gd(src);
    let diags = check_no_print_call(&tree);
    assert_eq!(diags.len(), 2);
    assert!(diags.iter().all(|d| d.code == "no-print"));
}

#[test]
fn print_with_empty_argument_list_still_flagged() {
    let src = "func f() -> void:\n\tprint()\n";
    let tree = parse_gd(src);
    let diags = check_no_print_call(&tree);
    assert_eq!(diags.len(), 1);
    assert_eq!(diags[0].code, "no-print");
}

#[test]
fn print_without_argument_list_position_is_call_only() {
    // A bare identifier `print` outside a call is not flagged.
    let src = "func f() -> void:\n\tvar x = print\n";
    let tree = parse_gd(src);
    let diags = check_no_print_call(&tree);
    assert_eq!(diags.len(), 0);
}

#[test]
fn ordered_file_yields_no_ordering_diagnostics() {
    let src = "class_name A\nextends Node\nsignal changed\nconst LIMIT := 1\nvar speed := 2\nfunc f() -> void:\n\tpass\n";
    let tree = parse_gd(src);
    let diags = check_export_var_order(&tree);
    let ordering: Vec<&Diagnostic> = diags
        .iter()
        .filter(|d| d.code == "top-level-order")
        .collect();
    assert_eq!(ordering.len(), 0);
}

#[test]
fn misordered_file_flags_nearest_higher_predecessor() {
    let src = "var speed := 2\nclass_name A\nfunc f() -> void:\n\tpass\n";
    let tree = parse_gd(src);
    let diags = check_export_var_order(&tree);
    let ordering: Vec<&Diagnostic> = diags
        .iter()
        .filter(|d| d.code == "top-level-order")
        .collect();
    // class_name (rank 200) is flagged against var (rank 1000); func is fine.
    assert_eq!(ordering.len(), 1);
    let var_stmt = find_child(&tree, "variable_statement");
    let cn = find_child(&tree, "class_name_statement");
    assert_eq!(ordering[0].labels[0].span.offset, var_stmt.start);
    assert_eq!(ordering[0].labels[1].span.offset, cn.start);
    assert!(ordering[0].labels[1].primary);
}

#[test]
fn repeated_runs_agree() {
    let src = "extends Bar\nclass_name Foo\nfunc f(a):\n\tprint(a)\n";
    let tree = parse_gd(src);
    let first = run_checks(&tree);
    let second = run_checks(&tree);
    assert_eq!(format!("{:?}", first), format!("{:?}", second));
    assert!(first.len() >= 3);
}

#[test]
fn run_checks_concatenates_in_check_order() {
    let src = "extends Bar\nclass_name Foo\nfunc f(a):\n\tprint(a)\n";
    let tree = parse_gd(src);
    let all = run_checks(&tree);
    let codes: Vec<&str> = all.iter().map(|d| d.code.as_str()).collect();
    let header_pos = codes.iter().position(|c| *c == "class-name-extends").unwrap();
    let typed_pos = codes
        .iter()
        .position(|c| *c == "typed-function-signature")
        .unwrap();
    let print_pos = codes.iter().position(|c| *c == "no-print").unwrap();
    assert!(header_pos < typed_pos && typed_pos < print_pos);
}

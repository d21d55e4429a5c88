//! Query framework tests over hand-built trees: depth bounds, field
//! constraints, optional sub-patterns, and document order of matches.

use gdscript_foli::query_struct::{node_at_path, run_query, ChildPat, MatchDepth, NodePat};
use gdscript_foli::tree::SynNode;

fn node(kind: &str, start: usize, end: usize, children: Vec<SynNode>) -> SynNode {
    SynNode {
        kind: kind.to_string(),
        named: true,
        field: None,
        start,
        end,
        text: String::new(),
        children,
    }
}

fn anon(kind: &str, start: usize, end: usize) -> SynNode {
    SynNode {
        kind: kind.to_string(),
        named: false,
        field: None,
        start,
        end,
        text: String::new(),
        children: Vec::new(),
    }
}

fn kind_pat(kind: &str, capture: Option<usize>, children: Vec<ChildPat>) -> NodePat {
    NodePat {
        kind: Some(kind.to_string()),
        field: None,
        capture,
        children,
    }
}

fn starts_of(tree: &SynNode, pat: &NodePat, depth: MatchDepth, nc: usize, slot: usize) -> Vec<usize> {
    run_query(pat, tree, depth, nc)
        .iter()
        .map(|rec| {
            let path = rec.caps[slot].as_ref().expect("captured");
            node_at_path(tree, path).start
        })
        .collect()
}

#[test]
fn depth_bounds_limit_anchoring() {
    // An `x` node sits at depth 1 and another at depth 2.
    let tree = node(
        "root",
        0,
        10,
        vec![node("x", 1, 2, vec![]), node("wrap", 3, 8, vec![node("x", 4, 5, vec![])])],
    );
    let pat = kind_pat("x", Some(0), vec![]);
    // Anchored at the root alone, the pattern never matches: the root is not
    // an `x`.
    assert_eq!(starts_of(&tree, &pat, MatchDepth::Root, 1, 0), Vec::<usize>::new());
    // One level down it reaches the shallow `x` only.
    assert_eq!(starts_of(&tree, &pat, MatchDepth::RootOrChildren, 1, 0), vec![1]);
    // Unbounded, it reaches both, in document order.
    assert_eq!(starts_of(&tree, &pat, MatchDepth::Unbounded, 1, 0), vec![1, 4]);
}

#[test]
fn anonymous_nodes_never_match() {
    let tree = node("root", 0, 10, vec![anon("x", 1, 2), node("x", 3, 4, vec![])]);
    let pat = kind_pat("x", Some(0), vec![]);
    assert_eq!(starts_of(&tree, &pat, MatchDepth::Unbounded, 1, 0), vec![3]);
}

#[test]
fn field_constraint_filters_children() {
    let mut lhs = node("value", 1, 2, vec![]);
    lhs.field = Some("left".to_string());
    let mut rhs = node("value", 3, 4, vec![]);
    rhs.field = Some("right".to_string());
    let tree = node("pair", 0, 5, vec![lhs, rhs]);
    let pat = NodePat {
        kind: Some("pair".to_string()),
        field: None,
        capture: None,
        children: vec![ChildPat {
            optional: false,
            pat: NodePat {
                kind: Some("value".to_string()),
                field: Some("right".to_string()),
                capture: Some(0),
                children: vec![],
            },
        }],
    };
    assert_eq!(starts_of(&tree, &pat, MatchDepth::Root, 1, 0), vec![3]);
}

#[test]
fn sibling_patterns_match_in_source_order_only() {
    // `b` before `a`: a pattern demanding `a` then `b` finds nothing.
    let tree = node("root", 0, 10, vec![node("b", 1, 2, vec![]), node("a", 3, 4, vec![])]);
    let ab = NodePat {
        kind: Some("root".to_string()),
        field: None,
        capture: None,
        children: vec![
            ChildPat { optional: false, pat: kind_pat("a", Some(0), vec![]) },
            ChildPat { optional: false, pat: kind_pat("b", Some(1), vec![]) },
        ],
    };
    assert_eq!(run_query(&ab, &tree, MatchDepth::Root, 2).len(), 0);
    let ba = NodePat {
        kind: Some("root".to_string()),
        field: None,
        capture: None,
        children: vec![
            ChildPat { optional: false, pat: kind_pat("b", Some(0), vec![]) },
            ChildPat { optional: false, pat: kind_pat("a", Some(1), vec![]) },
        ],
    };
    assert_eq!(run_query(&ba, &tree, MatchDepth::Root, 2).len(), 1);
}

#[test]
fn optional_sub_pattern_absent_only_when_nothing_fits() {
    // With a fitting child, the optional pattern binds it; the absent way is
    // not also produced.
    let tree = node("root", 0, 10, vec![node("a", 1, 2, vec![])]);
    let pat = NodePat {
        kind: Some("root".to_string()),
        field: None,
        capture: None,
        children: vec![ChildPat { optional: true, pat: kind_pat("a", Some(0), vec![]) }],
    };
    let recs = run_query(&pat, &tree, MatchDepth::Root, 1);
    assert_eq!(recs.len(), 1);
    assert!(recs[0].caps[0].is_some());

    // Without one, a single match with the slot absent remains.
    let bare = node("root", 0, 10, vec![node("b", 1, 2, vec![])]);
    let recs = run_query(&pat, &bare, MatchDepth::Root, 1);
    assert_eq!(recs.len(), 1);
    assert!(recs[0].caps[0].is_none());
}

#[test]
fn optional_skipping_still_lets_later_patterns_match() {
    // Pattern: optional `a`, then required `b`, against children [b]: the
    // optional is skipped and the match still succeeds.
    let tree = node("root", 0, 10, vec![node("b", 1, 2, vec![])]);
    let pat = NodePat {
        kind: Some("root".to_string()),
        field: None,
        capture: None,
        children: vec![
            ChildPat { optional: true, pat: kind_pat("a", Some(0), vec![]) },
            ChildPat { optional: false, pat: kind_pat("b", Some(1), vec![]) },
        ],
    };
    let recs = run_query(&pat, &tree, MatchDepth::Root, 2);
    assert_eq!(recs.len(), 1);
    assert!(recs[0].caps[0].is_none());
    assert!(recs[0].caps[1].is_some());
}

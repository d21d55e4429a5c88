//! A plain model of one node of a parsed syntax tree, together with the
//! derived values every check reads: byte span, zero-width points at the
//! start and end, decoded text, and children addressable by position, by
//! declared field name, or by a path of child indices.

use vstd::prelude::*;

use crate::diag::SourceSpan;

verus! {

/// One node of a parsed syntax tree.
///
/// `kind` is the grammar's tag for the node, `named` distinguishes named
/// grammar rules from anonymous tokens, and `field` is the field name under
/// which the node sits in its parent, if the grammar declares one. `start`
/// and `end` are byte offsets into the source text and `text` is the decoded
/// text slice between them.
#[derive(Debug)]
pub struct SynNode {
    pub kind: String,
    pub named: bool,
    pub field: Option<String>,
    pub start: usize,
    pub end: usize,
    pub text: String,
    pub children: Vec<SynNode>,
}

/// A well-formed node has an ordered byte span that contains the spans of
/// all of its children.
pub open spec fn wf_node(n: SynNode) -> bool
    decreases n,
{
    &&& n.start <= n.end
    &&& forall|i: int| #![trigger n.children@[i]]
        0 <= i < n.children@.len() ==> {
            &&& wf_node(n.children@[i])
            &&& n.start <= n.children@[i].start
            &&& n.children@[i].end <= n.end
        }
}

/// The node reached from `n` by following the child indices in `p`,
/// if every index is in range.
pub open spec fn node_at(n: SynNode, p: Seq<usize>) -> Option<SynNode>
    decreases p.len(),
{
    if p.len() == 0 {
        Some(n)
    } else if (p[0] as int) < n.children@.len() {
        node_at(n.children@[p[0] as int], p.drop_first())
    } else {
        None
    }
}

/// The first child of `children` that sits under the declared field `name`.
pub open spec fn first_field_child(children: Seq<SynNode>, name: Seq<char>) -> Option<SynNode>
    decreases children.len(),
{
    if children.len() == 0 {
        None
    } else if children[0].field matches Some(f) && f@ == name {
        Some(children[0])
    } else {
        first_field_child(children.drop_first(), name)
    }
}

/// The node's full byte span, as [`SynNode::to_source_span`] returns it.
pub open spec fn full_span(n: SynNode) -> SourceSpan {
    SourceSpan { offset: n.start, len: (n.end - n.start) as usize }
}

/// A zero-width span at the node's start.
pub open spec fn point_start_span(n: SynNode) -> SourceSpan {
    SourceSpan { offset: n.start, len: 0 }
}

/// A zero-width span at the node's end.
pub open spec fn point_end_span(n: SynNode) -> SourceSpan {
    SourceSpan { offset: n.end, len: 0 }
}

impl SynNode {
    /// The node's full byte span.
    pub fn to_source_span(&self) -> (r: SourceSpan)
        requires
            self.start <= self.end,
        ensures
            r == (SourceSpan { offset: self.start, len: (self.end - self.start) as usize }),
    {
        SourceSpan { offset: self.start, len: self.end - self.start }
    }

    /// A zero-width span at the node's start.
    pub fn to_source_point_start(&self) -> (r: SourceSpan)
        ensures
            r == (SourceSpan { offset: self.start, len: 0 }),
    {
        SourceSpan { offset: self.start, len: 0 }
    }

    /// A zero-width span at the node's end.
    pub fn to_source_point_end(&self) -> (r: SourceSpan)
        ensures
            r == (SourceSpan { offset: self.end, len: 0 }),
    {
        SourceSpan { offset: self.end, len: 0 }
    }

    /// The decoded text slice of the node.
    pub fn text(&self) -> (r: &str)
        ensures
            r@ == self.text@,
    {
        self.text.as_str()
    }

    /// Whether the node's kind tag equals `k`.
    pub fn kind_is(&self, k: &str) -> (r: bool)
        ensures
            r == (self.kind@ == k@),
    {
        let s: String = k.to_owned();
        self.kind == s
    }

    /// Whether the node's decoded text equals `t`.
    pub fn text_is(&self, t: &str) -> (r: bool)
        ensures
            r == (self.text@ == t@),
    {
        let s: String = t.to_owned();
        self.text == s
    }

    /// The child at position `i`, counting named and anonymous children alike.
    pub fn child(&self, i: usize) -> (r: Option<&SynNode>)
        ensures
            match r {
                Some(c) => i < self.children@.len() && *c == self.children@[i as int],
                None => i >= self.children@.len(),
            },
    {
        if i < self.children.len() {
            Some(&self.children[i])
        } else {
            None
        }
    }

    /// The first child that sits under the declared field `name`.
    pub fn child_by_field_name(&self, name: &str) -> (r: Option<&SynNode>)
        ensures
            match r {
                Some(c) => first_field_child(self.children@, name@) == Some(*c),
                None => first_field_child(self.children@, name@).is_none(),
            },
    {
        proof {
            assert(self.children@.skip(0) =~= self.children@);
        }
        let mut i: usize = 0;
        while i < self.children.len()
            invariant
                i <= self.children@.len(),
                first_field_child(self.children@, name@) == first_field_child(
                    self.children@.skip(i as int),
                    name@,
                ),
            decreases self.children@.len() - i,
        {
            let c = &self.children[i];
            let matches_field = match &c.field {
                Some(f) => {
                    let n: String = name.to_owned();
                    *f == n
                },
                None => false,
            };
            proof {
                assert(self.children@.skip(i as int)[0] == self.children@[i as int]);
            }
            if matches_field {
                return Some(c);
            }
            proof {
                assert(self.children@.skip(i as int).drop_first() =~= self.children@.skip(
                    i as int + 1,
                ));
            }
            i = i + 1;
        }
        None
    }
}

/// Following one more child index from a resolved path resolves to that child.
pub proof fn lemma_node_at_push(root: SynNode, p: Seq<usize>, n: SynNode, i: usize)
    requires
        node_at(root, p) == Some(n),
        (i as int) < n.children@.len(),
    ensures
        node_at(root, p.push(i)) == Some(n.children@[i as int]),
    decreases p.len(),
{
    if p.len() == 0 {
        assert(root == n);
        assert(p.push(i)[0] == i);
        assert(p.push(i).drop_first() =~= Seq::<usize>::empty());
        assert(node_at(n.children@[i as int], Seq::<usize>::empty()) == Some(
            n.children@[i as int],
        ));
    } else {
        assert((p[0] as int) < root.children@.len());
        assert(p.push(i)[0] == p[0]);
        assert(p.push(i).drop_first() =~= p.drop_first().push(i));
        lemma_node_at_push(root.children@[p[0] as int], p.drop_first(), n, i);
    }
}

/// Every node reached by a path from a well-formed node is well-formed.
pub proof fn lemma_node_at_wf(root: SynNode, p: Seq<usize>, n: SynNode)
    requires
        wf_node(root),
        node_at(root, p) == Some(n),
    ensures
        wf_node(n),
        root.start <= n.start,
        n.end <= root.end,
    decreases p.len(),
{
    if p.len() == 0 {
    } else {
        assert((p[0] as int) < root.children@.len());
        assert(wf_node(root.children@[p[0] as int]));
        lemma_node_at_wf(root.children@[p[0] as int], p.drop_first(), n);
    }
}

} // verus!

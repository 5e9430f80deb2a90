//! The concrete syntax tree as the selector sees it: a node kind, a byte
//! range into the original text, and the named children in source order.

use vstd::prelude::*;

verus! {

/// The node kinds of the host grammar that the selector inspects. Every
/// other kind of node is carried as `Other`; `Comment` nodes may appear
/// between any two structural children and are skipped by the matcher.
#[derive(Clone, Copy, PartialEq, Eq, Structural, Debug)]
pub enum NodeKind {
    /// An `attrpath = expression;` binding.
    Binding,
    /// The attribute path on the left of a binding.
    Attrpath,
    /// A bare identifier.
    Identifier,
    /// A quoted string literal (usable as an attribute name).
    StringExpression,
    /// The literal text inside a quoted string.
    StringFragment,
    /// A `with environment; body` dynamic-environment construct.
    WithExpression,
    /// A `let bindings in body` lexical-binding construct.
    LetExpression,
    /// The group of bindings introduced by a `let` or an attribute set.
    BindingSet,
    /// A `[ element* ]` list literal.
    ListExpression,
    /// A comment; never structurally matched.
    Comment,
    /// Any node kind the selector does not inspect.
    Other,
}

/// A half-open byte range `start..end` into the original source text.
#[derive(Clone, Copy, PartialEq, Eq, Structural, Debug)]
pub struct Span {
    pub start: usize,
    pub end: usize,
}

/// One node of the concrete syntax tree: positional identity (byte range
/// plus kind) and the named children in left-to-right source order.
pub struct SyntaxNode {
    pub kind: NodeKind,
    pub start: usize,
    pub end: usize,
    pub children: Vec<SyntaxNode>,
}

impl SyntaxNode {
    /// The byte range this node covers.
    pub open spec fn spec_span(self) -> Span {
        Span { start: self.start, end: self.end }
    }

    /// Well-formedness: the node's range lies within `0..limit`, and the
    /// children are nested inside it, in left-to-right disjoint order.
    pub open spec fn wf(self, limit: nat) -> bool
        decreases self,
    {
        &&& self.start <= self.end
        &&& self.end <= limit
        &&& wf_children(self.children@, self.start as nat, self.end as nat, limit)
    }

    /// The byte range this node covers, as an executable value.
    pub fn span(&self) -> (r: Span)
        ensures
            r == self.spec_span(),
    {
        Span { start: self.start, end: self.end }
    }
}

/// Well-formedness of a sibling list: each node is well formed, starts no
/// earlier than `lo`, ends no later than `hi`, and the next sibling starts
/// no earlier than this one ends.
pub open spec fn wf_children(s: Seq<SyntaxNode>, lo: nat, hi: nat, limit: nat) -> bool
    decreases s,
{
    if s.len() == 0 {
        true
    } else {
        &&& s[0].wf(limit)
        &&& lo <= s[0].start
        &&& s[0].end <= hi
        &&& wf_children(s.drop_first(), s[0].end as nat, hi, limit)
    }
}

/// Every node of a well-formed sibling list is itself well formed, lies in
/// `lo..hi`, and the siblings cover disjoint ranges in source order.
pub proof fn lemma_wf_children_index(s: Seq<SyntaxNode>, lo: nat, hi: nat, limit: nat)
    requires
        wf_children(s, lo, hi, limit),
    ensures
        forall|i: int| 0 <= i < s.len() ==> (#[trigger] s[i]).wf(limit),
        forall|i: int| 0 <= i < s.len() ==> lo <= (#[trigger] s[i]).start && s[i].end <= hi,
        forall|i: int, j: int| 0 <= i < j < s.len() ==> (#[trigger] s[i]).end <= (#[trigger] s[j]).start,
    decreases s.len(),
{
    if s.len() > 0 {
        lemma_wf_children_index(s.drop_first(), s[0].end as nat, hi, limit);
        assert(s[0].wf(limit));
        assert(s[0].start <= s[0].end);
        assert forall|i: int| 0 <= i < s.len() implies (#[trigger] s[i]).wf(limit) by {
            if i > 0 {
                assert(s[i] == s.drop_first()[i - 1]);
            }
        }
        assert forall|i: int| 0 <= i < s.len() implies lo <= (#[trigger] s[i]).start && s[i].end <= hi by {
            if i > 0 {
                assert(s[i] == s.drop_first()[i - 1]);
            }
        }
        assert forall|i: int, j: int| 0 <= i < j < s.len() implies (#[trigger] s[i]).end <= (#[trigger] s[j]).start by {
            if i > 0 {
                assert(s[i] == s.drop_first()[i - 1]);
                assert(s[j] == s.drop_first()[j - 1]);
            } else {
                assert(s[j] == s.drop_first()[j - 1]);
            }
        }
    }
}

/// The text a node covers, as a mathematical sequence of bytes.
pub open spec fn text_of(n: SyntaxNode, src: Seq<u8>) -> Seq<u8> {
    src.subrange(n.start as int, n.end as int)
}

/// The structural (non-comment) children of a node, in source order.
pub open spec fn non_comment(s: Seq<SyntaxNode>) -> Seq<SyntaxNode>
    decreases s.len(),
{
    if s.len() == 0 {
        Seq::empty()
    } else {
        let prefix = non_comment(s.drop_last());
        if s.last().kind == NodeKind::Comment {
            prefix
        } else {
            prefix.push(s.last())
        }
    }
}

/// Structural children are drawn from the sibling list itself.
pub proof fn lemma_non_comment_sub(s: Seq<SyntaxNode>)
    ensures
        forall|i: int| 0 <= i < non_comment(s).len() ==> exists|j: int|
            0 <= j < s.len() && #[trigger] non_comment(s)[i] == s[j],
    decreases s.len(),
{
    if s.len() > 0 {
        lemma_non_comment_sub(s.drop_last());
        assert forall|i: int| 0 <= i < non_comment(s).len() implies exists|j: int|
            0 <= j < s.len() && #[trigger] non_comment(s)[i] == s[j] by {
            if i < non_comment(s.drop_last()).len() {
                let j = choose|j: int|
                    0 <= j < s.drop_last().len() && non_comment(s.drop_last())[i] == s.drop_last()[j];
                assert(s[j] == s.drop_last()[j]);
            } else {
                assert(non_comment(s)[i] == s.last());
                assert(s[s.len() - 1] == s.last());
            }
        }
    }
}

/// Collects the indices of the structural (non-comment) children, so the
/// matcher can address them without copying the subtrees.
pub fn structural_indices(children: &Vec<SyntaxNode>) -> (r: Vec<usize>)
    ensures
        r@.len() == non_comment(children@).len(),
        forall|k: int| 0 <= k < r@.len() ==> r@[k] < children@.len(),
        forall|k: int| 0 <= k < r@.len() ==> children@[#[trigger] r@[k] as int] == non_comment(children@)[k],
{
    let mut r: Vec<usize> = Vec::new();
    let mut i: usize = 0;
    while i < children.len()
        invariant
            i <= children@.len(),
            r@.len() == non_comment(children@.take(i as int)).len(),
            forall|k: int| 0 <= k < r@.len() ==> r@[k] < i,
            forall|k: int| 0 <= k < r@.len() ==> children@[#[trigger] r@[k] as int]
                == non_comment(children@.take(i as int))[k],
        decreases children@.len() - i,
    {
        proof {
            assert(children@.take(i + 1).drop_last() =~= children@.take(i as int));
            assert(children@.take(i + 1).last() == children@[i as int]);
        }
        if !(children[i].kind == NodeKind::Comment) {
            r.push(i);
        }
        i = i + 1;
    }
    proof {
        assert(children@.take(children@.len() as int) =~= children@);
    }
    r
}

} // verus!

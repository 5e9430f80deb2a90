//! The match engine: executes a compiled pattern against a syntax tree,
//! read-only and deterministic, producing matches in document order
//! (depth-first, left to right), and projects them into result records.

use vstd::prelude::*;
use crate::pattern::CompiledPattern;
use crate::pattern::PatternNode;
use crate::tree::NodeKind;
use crate::tree::Span;
use crate::tree::SyntaxNode;
use crate::tree::lemma_wf_children_index;
use crate::tree::non_comment;
use crate::tree::structural_indices;
use crate::tree::text_of;

verus! {

/// The enclosing scope a match was found under: the whole scope construct,
/// and the part of it that introduces the bindings (the environment of a
/// dynamic frame, the binding group of a lexical frame).
#[derive(Clone, Copy, PartialEq, Eq, Structural, Debug)]
pub struct ScopeContext {
    pub frame: Span,
    pub environment: Span,
}

/// One successful application of a compiled pattern at some tree location:
/// the innermost enclosing-scope role (absent when the chain is empty) and
/// the element role, bound once per list element. An empty element list is
/// a valid match, not an error: the shape matched and held zero elements.
pub struct MatchResult {
    pub context: Option<ScopeContext>,
    pub elements: Vec<Span>,
}

/// The mathematical content of a `MatchResult`.
pub ghost struct MatchSpec {
    pub context: Option<ScopeContext>,
    pub elements: Seq<Span>,
}

impl View for MatchResult {
    type V = MatchSpec;

    open spec fn view(&self) -> MatchSpec {
        MatchSpec { context: self.context, elements: self.elements@ }
    }
}

/// The externally visible result: one located value, the innermost
/// enclosing scope it was found under when one was requested, and the byte
/// ranges of both in the original text.
#[derive(Clone, Copy, PartialEq, Eq, Debug)]
pub struct ValueWithContext {
    pub context: Option<ScopeContext>,
    pub value: Span,
}

/// Whether one attribute-path component carries exactly the literal name
/// `seg`: a bare identifier with that text, or a quoted name whose single
/// fragment has that text. Comparison is byte-for-byte; no byte of `seg`
/// is ever interpreted as a pattern.
pub open spec fn component_matches(c: SyntaxNode, seg: Seq<u8>, src: Seq<u8>) -> bool {
    ||| (c.kind == NodeKind::Identifier && text_of(c, src) == seg)
    ||| (c.kind == NodeKind::StringExpression && {
        let fs = non_comment(c.children@);
        &&& fs.len() == 1
        &&& fs[0].kind == NodeKind::StringFragment
        &&& text_of(fs[0], src) == seg
    })
}

/// Whether an attrpath node spells exactly the requested segments.
pub open spec fn attrpath_matches(ap: SyntaxNode, segs: Seq<Seq<u8>>, src: Seq<u8>) -> bool {
    let cs = non_comment(ap.children@);
    &&& cs.len() == segs.len()
    &&& forall|i: int| 0 <= i < cs.len() ==> component_matches(#[trigger] cs[i], segs[i], src)
}

/// Whether a node matches the body pattern: the value-shape template at
/// the centre, one structural template per scope frame around it.
pub open spec fn body_matches(p: PatternNode, n: SyntaxNode) -> bool
    decreases p,
{
    match p {
        PatternNode::ListElements => n.kind == NodeKind::ListExpression,
        PatternNode::DynamicFrame(inner) => {
            let cs = non_comment(n.children@);
            &&& n.kind == NodeKind::WithExpression
            &&& cs.len() == 2
            &&& body_matches(*inner, cs[1])
        },
        PatternNode::LexicalFrame(inner) => {
            let cs = non_comment(n.children@);
            &&& n.kind == NodeKind::LetExpression
            &&& cs.len() == 2
            &&& cs[0].kind == NodeKind::BindingSet
            &&& body_matches(*inner, cs[1])
        },
    }
}

/// Whether a node is a binding whose attribute path spells the requested
/// segments and whose expression matches the body pattern.
pub open spec fn head_matches(segs: Seq<Seq<u8>>, body: PatternNode, n: SyntaxNode, src: Seq<u8>) -> bool {
    let cs = non_comment(n.children@);
    &&& n.kind == NodeKind::Binding
    &&& cs.len() == 2
    &&& cs[0].kind == NodeKind::Attrpath
    &&& attrpath_matches(cs[0], segs, src)
    &&& body_matches(body, cs[1])
}

/// The innermost frame wins the enclosing-scope role: a context reported
/// by a deeper frame is kept, otherwise this frame offers its own.
pub open spec fn frame_context(inner: Option<ScopeContext>, n: SyntaxNode, env: SyntaxNode) -> Option<
    ScopeContext,
> {
    match inner {
        Some(c) => Some(c),
        None => Some(ScopeContext { frame: n.spec_span(), environment: env.spec_span() }),
    }
}

/// The roles bound by a body match: the elements of the matched list, and
/// the innermost enclosing scope on the way down, if any frame was crossed.
pub open spec fn extract_body(p: PatternNode, n: SyntaxNode) -> MatchSpec
    decreases p,
{
    match p {
        PatternNode::ListElements => MatchSpec {
            context: None,
            elements: non_comment(n.children@).map_values(|c: SyntaxNode| c.spec_span()),
        },
        PatternNode::DynamicFrame(inner) => {
            let cs = non_comment(n.children@);
            let m = extract_body(*inner, cs[1]);
            MatchSpec { context: frame_context(m.context, n, cs[0]), elements: m.elements }
        },
        PatternNode::LexicalFrame(inner) => {
            let cs = non_comment(n.children@);
            let m = extract_body(*inner, cs[1]);
            MatchSpec { context: frame_context(m.context, n, cs[0]), elements: m.elements }
        },
    }
}

/// The roles bound by a full match at a binding node.
pub open spec fn extract_head(body: PatternNode, n: SyntaxNode) -> MatchSpec {
    extract_body(body, non_comment(n.children@)[1])
}

/// All matches of the pattern in the subtree rooted at `n`, in document
/// order: a match at `n` itself first, then the children left to right.
pub open spec fn collect_matches(segs: Seq<Seq<u8>>, body: PatternNode, n: SyntaxNode, src: Seq<u8>) -> Seq<
    MatchSpec,
>
    decreases n,
{
    let here: Seq<MatchSpec> = if head_matches(segs, body, n, src) {
        seq![extract_head(body, n)]
    } else {
        Seq::empty()
    };
    here + collect_list(segs, body, n.children@, src)
}

/// All matches of the pattern in a list of subtrees, in order.
pub open spec fn collect_list(segs: Seq<Seq<u8>>, body: PatternNode, s: Seq<SyntaxNode>, src: Seq<u8>) -> Seq<
    MatchSpec,
>
    decreases s,
{
    if s.len() == 0 {
        Seq::empty()
    } else {
        collect_matches(segs, body, s[0], src) + collect_list(segs, body, s.drop_first(), src)
    }
}

/// The records one match projects to: one per bound element, each carrying
/// the same enclosing scope, in element order.
pub open spec fn match_records(m: MatchSpec) -> Seq<ValueWithContext> {
    m.elements.map_values(|e: Span| ValueWithContext { context: m.context, value: e })
}

/// The full result stream: the records of each match, in match order.
pub open spec fn records_of(ms: Seq<MatchSpec>) -> Seq<ValueWithContext>
    decreases ms.len(),
{
    if ms.len() == 0 {
        Seq::empty()
    } else {
        match_records(ms[0]) + records_of(ms.drop_first())
    }
}

/// Splitting the last subtree off a list splits its matches off the back.
proof fn lemma_collect_list_snoc(segs: Seq<Seq<u8>>, body: PatternNode, s: Seq<SyntaxNode>, src: Seq<u8>)
    requires
        s.len() > 0,
    ensures
        collect_list(segs, body, s, src) == collect_list(segs, body, s.drop_last(), src)
            + collect_matches(segs, body, s.last(), src),
    decreases s.len(),
{
    assert(collect_list(segs, body, s, src) == collect_matches(segs, body, s[0], src)
        + collect_list(segs, body, s.drop_first(), src));
    if s.len() == 1 {
        assert(s.drop_first().len() == 0);
        assert(s.drop_last().len() == 0);
        assert(s[0] == s.last());
        assert(collect_list(segs, body, s.drop_first(), src) =~= Seq::<MatchSpec>::empty());
        assert(collect_list(segs, body, s.drop_last(), src) =~= Seq::<MatchSpec>::empty());
        assert(collect_list(segs, body, s, src) =~= collect_list(segs, body, s.drop_last(), src)
            + collect_matches(segs, body, s.last(), src));
    } else {
        lemma_collect_list_snoc(segs, body, s.drop_first(), src);
        assert(s.drop_first().drop_last() =~= s.drop_last().drop_first());
        assert(s.drop_first().last() == s.last());
        assert(s.drop_last()[0] == s[0]);
        assert(s.drop_last().len() > 0);
        assert(collect_list(segs, body, s.drop_last(), src) == collect_matches(segs, body, s[0], src)
            + collect_list(segs, body, s.drop_last().drop_first(), src));
        assert(collect_list(segs, body, s, src) =~= collect_list(segs, body, s.drop_last(), src)
            + collect_matches(segs, body, s.last(), src));
    }
}

/// Splitting the last match off a list splits its records off the back.
proof fn lemma_records_snoc(ms: Seq<MatchSpec>)
    requires
        ms.len() > 0,
    ensures
        records_of(ms) == records_of(ms.drop_last()) + match_records(ms.last()),
    decreases ms.len(),
{
    assert(records_of(ms) == match_records(ms[0]) + records_of(ms.drop_first()));
    if ms.len() == 1 {
        assert(ms[0] == ms.last());
        assert(records_of(ms.drop_first()) =~= Seq::<ValueWithContext>::empty());
        assert(records_of(ms.drop_last()) =~= Seq::<ValueWithContext>::empty());
        assert(records_of(ms) =~= records_of(ms.drop_last()) + match_records(ms.last()));
    } else {
        lemma_records_snoc(ms.drop_first());
        assert(ms.drop_first().drop_last() =~= ms.drop_last().drop_first());
        assert(ms.drop_first().last() == ms.last());
        assert(ms.drop_last()[0] == ms[0]);
        assert(ms.drop_last().len() > 0);
        assert(records_of(ms.drop_last()) == match_records(ms[0]) + records_of(
            ms.drop_last().drop_first(),
        ));
        assert(records_of(ms) =~= records_of(ms.drop_last()) + match_records(ms.last()));
    }
}

/// Compares `src[start..end]` with `seg`, byte for byte.
fn bytes_range_eq(src: &Vec<u8>, start: usize, end: usize, seg: &Vec<u8>) -> (r: bool)
    requires
        start <= end,
        end <= src@.len(),
    ensures
        r == (src@.subrange(start as int, end as int) == seg@),
{
    if end - start != seg.len() {
        proof {
            assert(src@.subrange(start as int, end as int).len() == end - start);
        }
        return false;
    }
    let mut i: usize = 0;
    while i < seg.len()
        invariant
            start <= end,
            end <= src@.len(),
            seg@.len() == end - start,
            i <= seg@.len(),
            forall|k: int| 0 <= k < i ==> src@[start + k] == seg@[k],
        decreases seg@.len() - i,
    {
        if src[start + i] != seg[i] {
            proof {
                assert(src@.subrange(start as int, end as int)[i as int] == src@[start + i]);
            }
            return false;
        }
        i = i + 1;
    }
    proof {
        assert(src@.subrange(start as int, end as int) =~= seg@);
    }
    true
}

/// Whether one attrpath component carries exactly the literal name `seg`.
fn component_matches_exec(c: &SyntaxNode, seg: &Vec<u8>, src: &Vec<u8>) -> (r: bool)
    requires
        c.wf(src@.len()),
    ensures
        r == component_matches(*c, seg@, src@),
{
    if c.kind == NodeKind::Identifier {
        proof {
            assert(c.start <= c.end && c.end <= src@.len());
        }
        bytes_range_eq(src, c.start, c.end, seg)
    } else if c.kind == NodeKind::StringExpression {
        let idx = structural_indices(&c.children);
        if idx.len() != 1 {
            return false;
        }
        let f = &c.children[idx[0]];
        proof {
            lemma_wf_children_index(c.children@, c.start as nat, c.end as nat, src@.len());
            assert(c.children@[idx@[0] as int].wf(src@.len()));
            assert(f.start <= f.end && f.end <= src@.len());
        }
        if f.kind == NodeKind::StringFragment {
            bytes_range_eq(src, f.start, f.end, seg)
        } else {
            false
        }
    } else {
        false
    }
}

/// Whether an attrpath node spells exactly the requested segments.
fn attrpath_matches_exec(ap: &SyntaxNode, segments: &Vec<Vec<u8>>, src: &Vec<u8>) -> (r: bool)
    requires
        ap.wf(src@.len()),
    ensures
        r == attrpath_matches(*ap, segments@.map_values(|v: Vec<u8>| v@), src@),
{
    let ghost segs = segments@.map_values(|v: Vec<u8>| v@);
    let idx = structural_indices(&ap.children);
    if idx.len() != segments.len() {
        return false;
    }
    proof {
        lemma_wf_children_index(ap.children@, ap.start as nat, ap.end as nat, src@.len());
    }
    let mut i: usize = 0;
    while i < idx.len()
        invariant
            ap.wf(src@.len()),
            segs == segments@.map_values(|v: Vec<u8>| v@),
            idx@.len() == non_comment(ap.children@).len(),
            idx@.len() == segments@.len(),
            forall|k: int| 0 <= k < idx@.len() ==> idx@[k] < ap.children@.len(),
            forall|k: int| 0 <= k < idx@.len() ==> ap.children@[#[trigger] idx@[k] as int]
                == non_comment(ap.children@)[k],
            forall|k: int| 0 <= k < ap.children@.len() ==> (#[trigger] ap.children@[k]).wf(src@.len()),
            i <= idx@.len(),
            forall|k: int| 0 <= k < i ==> component_matches(
                #[trigger] non_comment(ap.children@)[k],
                segs[k],
                src@,
            ),
        decreases idx@.len() - i,
    {
        let c = &ap.children[idx[i]];
        if !component_matches_exec(c, &segments[i], src) {
            proof {
                assert(segs[i as int] == segments@[i as int]@);
                assert(!component_matches(non_comment(ap.children@)[i as int], segs[i as int], src@));
            }
            return false;
        }
        proof {
            assert(segs[i as int] == segments@[i as int]@);
        }
        i = i + 1;
    }
    true
}

/// Whether a node matches the body pattern.
fn body_matches_exec(p: &PatternNode, n: &SyntaxNode, ghost_limit: Ghost<nat>) -> (r: bool)
    requires
        n.wf(ghost_limit@),
    ensures
        r == body_matches(*p, *n),
    decreases p,
{
    match p {
        PatternNode::ListElements => n.kind == NodeKind::ListExpression,
        PatternNode::DynamicFrame(inner) => {
            if !(n.kind == NodeKind::WithExpression) {
                return false;
            }
            let idx = structural_indices(&n.children);
            if idx.len() != 2 {
                return false;
            }
            proof {
                lemma_wf_children_index(n.children@, n.start as nat, n.end as nat, ghost_limit@);
                assert(n.children@[idx@[1] as int].wf(ghost_limit@));
            }
            body_matches_exec(&**inner, &n.children[idx[1]], ghost_limit)
        },
        PatternNode::LexicalFrame(inner) => {
            if !(n.kind == NodeKind::LetExpression) {
                return false;
            }
            let idx = structural_indices(&n.children);
            if idx.len() != 2 {
                return false;
            }
            let first = &n.children[idx[0]];
            if !(first.kind == NodeKind::BindingSet) {
                return false;
            }
            proof {
                lemma_wf_children_index(n.children@, n.start as nat, n.end as nat, ghost_limit@);
                assert(n.children@[idx@[1] as int].wf(ghost_limit@));
            }
            body_matches_exec(&**inner, &n.children[idx[1]], ghost_limit)
        },
    }
}

/// Binds the roles of a body match.
fn extract_body_exec(p: &PatternNode, n: &SyntaxNode) -> (r: MatchResult)
    requires
        body_matches(*p, *n),
    ensures
        r@ == extract_body(*p, *n),
    decreases p,
{
    match p {
        PatternNode::ListElements => {
            let idx = structural_indices(&n.children);
            let mut elements: Vec<Span> = Vec::new();
            let mut k: usize = 0;
            while k < idx.len()
                invariant
                    idx@.len() == non_comment(n.children@).len(),
                    forall|j: int| 0 <= j < idx@.len() ==> idx@[j] < n.children@.len(),
                    forall|j: int| 0 <= j < idx@.len() ==> n.children@[#[trigger] idx@[j] as int]
                        == non_comment(n.children@)[j],
                    k <= idx@.len(),
                    elements@.len() == k,
                    forall|j: int| 0 <= j < k ==> (#[trigger] elements@[j])
                        == non_comment(n.children@)[j].spec_span(),
                decreases idx@.len() - k,
            {
                elements.push(n.children[idx[k]].span());
                k = k + 1;
            }
            proof {
                assert(elements@ =~= non_comment(n.children@).map_values(
                    |c: SyntaxNode| c.spec_span(),
                ));
            }
            MatchResult { context: None, elements }
        },
        PatternNode::DynamicFrame(inner) => {
            let idx = structural_indices(&n.children);
            let m = extract_body_exec(&**inner, &n.children[idx[1]]);
            let env = n.children[idx[0]].span();
            let context = match m.context {
                Some(c) => Some(c),
                None => Some(ScopeContext { frame: n.span(), environment: env }),
            };
            MatchResult { context, elements: m.elements }
        },
        PatternNode::LexicalFrame(inner) => {
            let idx = structural_indices(&n.children);
            let m = extract_body_exec(&**inner, &n.children[idx[1]]);
            let env = n.children[idx[0]].span();
            let context = match m.context {
                Some(c) => Some(c),
                None => Some(ScopeContext { frame: n.span(), environment: env }),
            };
            MatchResult { context, elements: m.elements }
        },
    }
}

/// Whether a node is a binding that matches the compiled pattern.
fn head_matches_exec(cp: &CompiledPattern, n: &SyntaxNode, src: &Vec<u8>) -> (r: bool)
    requires
        n.wf(src@.len()),
    ensures
        r == head_matches(cp.segs(), cp.body, *n, src@),
{
    if !(n.kind == NodeKind::Binding) {
        return false;
    }
    let idx = structural_indices(&n.children);
    if idx.len() != 2 {
        return false;
    }
    proof {
        lemma_wf_children_index(n.children@, n.start as nat, n.end as nat, src@.len());
        assert(n.children@[idx@[0] as int].wf(src@.len()));
        assert(n.children@[idx@[1] as int].wf(src@.len()));
    }
    let ap = &n.children[idx[0]];
    if !(ap.kind == NodeKind::Attrpath) {
        return false;
    }
    if !attrpath_matches_exec(ap, &cp.segments, src) {
        return false;
    }
    body_matches_exec(&cp.body, &n.children[idx[1]], Ghost(src@.len()))
}

/// Concatenating match lists concatenates their views.
proof fn lemma_view_add(a: Seq<MatchResult>, b: Seq<MatchResult>)
    ensures
        (a + b).map_values(|m: MatchResult| m@) == a.map_values(|m: MatchResult| m@) + b.map_values(
            |m: MatchResult| m@,
        ),
{
    assert((a + b).map_values(|m: MatchResult| m@) =~= a.map_values(|m: MatchResult| m@)
        + b.map_values(|m: MatchResult| m@));
}

/// Finds every match of the compiled pattern in the subtree rooted at `n`,
/// in document order. Read-only: the result is a pure function of the
/// pattern, the tree and the text, so re-running it yields the same
/// matches in the same order.
pub fn find_matches(cp: &CompiledPattern, n: &SyntaxNode, src: &Vec<u8>) -> (r: Vec<MatchResult>)
    requires
        n.wf(src@.len()),
    ensures
        r@.map_values(|m: MatchResult| m@) == collect_matches(cp.segs(), cp.body, *n, src@),
    decreases n,
{
    let mut out: Vec<MatchResult> = Vec::new();
    if head_matches_exec(cp, n, src) {
        let idx = structural_indices(&n.children);
        out.push(extract_body_exec(&cp.body, &n.children[idx[1]]));
        proof {
            assert(out@.map_values(|m: MatchResult| m@) =~= seq![extract_head(cp.body, *n)]);
        }
    } else {
        proof {
            assert(out@.map_values(|m: MatchResult| m@) =~= Seq::<MatchSpec>::empty());
        }
    }
    let ghost here = out@.map_values(|m: MatchResult| m@);
    proof {
        assert(collect_list(cp.segs(), cp.body, n.children@.take(0), src@) =~= Seq::<MatchSpec>::empty());
        assert(out@.map_values(|m: MatchResult| m@) =~= here + collect_list(
            cp.segs(),
            cp.body,
            n.children@.take(0),
            src@,
        ));
        lemma_wf_children_index(n.children@, n.start as nat, n.end as nat, src@.len());
    }
    let mut i: usize = 0;
    while i < n.children.len()
        invariant
            n.wf(src@.len()),
            forall|k: int| 0 <= k < n.children@.len() ==> (#[trigger] n.children@[k]).wf(src@.len()),
            i <= n.children@.len(),
            here == if head_matches(cp.segs(), cp.body, *n, src@) {
                seq![extract_head(cp.body, *n)]
            } else {
                Seq::<MatchSpec>::empty()
            },
            out@.map_values(|m: MatchResult| m@) == here + collect_list(
                cp.segs(),
                cp.body,
                n.children@.take(i as int),
                src@,
            ),
        decreases n.children@.len() - i,
    {
        let mut sub = find_matches(cp, &n.children[i], src);
        let ghost old_out = out@;
        let ghost old_sub = sub@;
        out.append(&mut sub);
        proof {
            assert(out@ == old_out + old_sub);
            lemma_view_add(old_out, old_sub);
            lemma_collect_list_snoc(cp.segs(), cp.body, n.children@.take(i + 1), src@);
            assert(n.children@.take(i + 1).drop_last() =~= n.children@.take(i as int));
            assert(n.children@.take(i + 1).last() == n.children@[i as int]);
            assert(out@.map_values(|m: MatchResult| m@) =~= here + collect_list(
                cp.segs(),
                cp.body,
                n.children@.take(i + 1),
                src@,
            ));
        }
        i = i + 1;
    }
    proof {
        assert(n.children@.take(n.children@.len() as int) =~= n.children@);
    }
    out
}

/// Projects matches into the flat record stream, preserving order.
pub fn build_records(ms: &Vec<MatchResult>) -> (r: Vec<ValueWithContext>)
    ensures
        r@ == records_of(ms@.map_values(|m: MatchResult| m@)),
{
    let ghost target = ms@.map_values(|m: MatchResult| m@);
    let mut r: Vec<ValueWithContext> = Vec::new();
    proof {
        assert(records_of(target.take(0)) =~= Seq::<ValueWithContext>::empty());
    }
    let mut i: usize = 0;
    while i < ms.len()
        invariant
            target == ms@.map_values(|m: MatchResult| m@),
            i <= ms@.len(),
            r@ == records_of(target.take(i as int)),
        decreases ms@.len() - i,
    {
        let m = &ms[i];
        let mut j: usize = 0;
        while j < m.elements.len()
            invariant
                target == ms@.map_values(|m: MatchResult| m@),
                i < ms@.len(),
                *m == ms@[i as int],
                j <= m.elements@.len(),
                r@ == records_of(target.take(i as int)) + match_records(target[i as int]).take(
                    j as int,
                ),
            decreases m.elements@.len() - j,
        {
            r.push(ValueWithContext { context: m.context, value: m.elements[j] });
            proof {
                assert(match_records(target[i as int]).take(j + 1) =~= match_records(
                    target[i as int],
                ).take(j as int).push(
                    ValueWithContext { context: m.context, value: m.elements@[j as int] },
                ));
                assert(r@ =~= records_of(target.take(i as int)) + match_records(
                    target[i as int],
                ).take(j + 1));
            }
            j = j + 1;
        }
        proof {
            lemma_records_snoc(target.take(i + 1));
            assert(target.take(i + 1).drop_last() =~= target.take(i as int));
            assert(target.take(i + 1).last() == target[i as int]);
            assert(match_records(target[i as int]).take(m.elements@.len() as int) =~= match_records(
                target[i as int],
            ));
        }
        i = i + 1;
    }
    proof {
        assert(target.take(target.len() as int) =~= target);
    }
    r
}

/// Inserts a record behind every record whose value does not start later
/// than its own: the stable step of arranging the stream by document
/// position.
pub open spec fn insert_in_order(s: Seq<ValueWithContext>, r: ValueWithContext) -> Seq<
    ValueWithContext,
>
    decreases s.len(),
{
    if s.len() == 0 {
        seq![r]
    } else if s.last().value.start <= r.value.start {
        s.push(r)
    } else {
        insert_in_order(s.drop_last(), r).push(s.last())
    }
}

/// The record stream arranged into global document order: ascending by
/// the start byte of the located value; records whose values start at
/// the same byte keep their match-major order.
pub open spec fn order_records(rs: Seq<ValueWithContext>) -> Seq<ValueWithContext>
    decreases rs.len(),
{
    if rs.len() == 0 {
        Seq::empty()
    } else {
        insert_in_order(order_records(rs.drop_last()), rs.last())
    }
}

/// The stream's value positions never step backwards.
pub open spec fn starts_nondecreasing(rs: Seq<ValueWithContext>) -> bool {
    forall|i: int, j: int|
        #![trigger rs[i], rs[j]]
        0 <= i <= j < rs.len() ==> rs[i].value.start <= rs[j].value.start
}

/// Inserting keeps the length, and any property every record had.
pub proof fn lemma_insert_in_order_props(
    s: Seq<ValueWithContext>,
    r: ValueWithContext,
    p: spec_fn(ValueWithContext) -> bool,
)
    requires
        forall|j: int| 0 <= j < s.len() ==> p(#[trigger] s[j]),
        p(r),
    ensures
        insert_in_order(s, r).len() == s.len() + 1,
        forall|j: int| 0 <= j < insert_in_order(s, r).len() ==> p(#[trigger] insert_in_order(s, r)[j]),
    decreases s.len(),
{
    let t = insert_in_order(s, r);
    if s.len() == 0 {
        assert(t[0] == r);
    } else if s.last().value.start <= r.value.start {
        assert forall|j: int| 0 <= j < t.len() implies p(#[trigger] t[j]) by {
            if j < s.len() {
                assert(t[j] == s[j]);
            } else {
                assert(t[j] == r);
            }
        }
    } else {
        assert forall|j: int| 0 <= j < s.drop_last().len() implies p(#[trigger] s.drop_last()[j]) by {
            assert(s.drop_last()[j] == s[j]);
        }
        lemma_insert_in_order_props(s.drop_last(), r, p);
        let t0 = insert_in_order(s.drop_last(), r);
        assert forall|j: int| 0 <= j < t.len() implies p(#[trigger] t[j]) by {
            if j < t0.len() {
                assert(t[j] == t0[j]);
            } else {
                assert(t[j] == s.last());
                assert(s.last() == s[s.len() - 1]);
            }
        }
    }
}

/// Inserting into an arranged stream keeps it arranged.
pub proof fn lemma_insert_in_order_sorted(s: Seq<ValueWithContext>, r: ValueWithContext)
    requires
        starts_nondecreasing(s),
    ensures
        starts_nondecreasing(insert_in_order(s, r)),
    decreases s.len(),
{
    let t = insert_in_order(s, r);
    if s.len() == 0 {
        assert(starts_nondecreasing(t));
    } else if s.last().value.start <= r.value.start {
        assert forall|i: int, j: int|
            #![trigger t[i], t[j]]
            0 <= i <= j < t.len() implies t[i].value.start <= t[j].value.start by {
            if j < s.len() {
                assert(t[i] == s[i] && t[j] == s[j]);
            } else if i < s.len() {
                assert(t[i] == s[i] && t[j] == r);
                assert(s[i].value.start <= s[s.len() - 1].value.start);
            }
        }
    } else {
        assert forall|i: int, j: int|
            #![trigger s.drop_last()[i], s.drop_last()[j]]
            0 <= i <= j < s.drop_last().len() implies s.drop_last()[i].value.start
            <= s.drop_last()[j].value.start by {
            assert(s.drop_last()[i] == s[i] && s.drop_last()[j] == s[j]);
        }
        lemma_insert_in_order_sorted(s.drop_last(), r);
        let bound = s.last().value.start;
        assert forall|j: int| 0 <= j < s.drop_last().len() implies (#[trigger] s.drop_last()[j]).value.start
            <= bound by {
            assert(s.drop_last()[j] == s[j]);
            assert(s[j].value.start <= s[s.len() - 1].value.start);
        }
        lemma_insert_in_order_props(
            s.drop_last(),
            r,
            |x: ValueWithContext| x.value.start <= bound,
        );
        let t0 = insert_in_order(s.drop_last(), r);
        assert forall|i: int, j: int|
            #![trigger t[i], t[j]]
            0 <= i <= j < t.len() implies t[i].value.start <= t[j].value.start by {
            if j < t0.len() {
                assert(t[i] == t0[i] && t[j] == t0[j]);
            } else if i < t0.len() {
                assert(t[i] == t0[i] && t[j] == s.last());
            }
        }
    }
}

/// Arranging keeps the length, and any property every record had.
pub proof fn lemma_order_records_props(rs: Seq<ValueWithContext>, p: spec_fn(ValueWithContext) -> bool)
    requires
        forall|j: int| 0 <= j < rs.len() ==> p(#[trigger] rs[j]),
    ensures
        order_records(rs).len() == rs.len(),
        forall|j: int| 0 <= j < order_records(rs).len() ==> p(#[trigger] order_records(rs)[j]),
    decreases rs.len(),
{
    if rs.len() > 0 {
        assert forall|j: int| 0 <= j < rs.drop_last().len() implies p(#[trigger] rs.drop_last()[j]) by {
            assert(rs.drop_last()[j] == rs[j]);
        }
        lemma_order_records_props(rs.drop_last(), p);
        assert(p(rs.last()));
        lemma_insert_in_order_props(order_records(rs.drop_last()), rs.last(), p);
    }
}

/// The arranged stream ascends by document position.
pub proof fn lemma_order_records_sorted(rs: Seq<ValueWithContext>)
    ensures
        starts_nondecreasing(order_records(rs)),
    decreases rs.len(),
{
    if rs.len() > 0 {
        lemma_order_records_sorted(rs.drop_last());
        lemma_insert_in_order_sorted(order_records(rs.drop_last()), rs.last());
    }
}

/// Records past the insertion point split off the back of an insertion.
proof fn lemma_insert_in_order_split(s: Seq<ValueWithContext>, key: ValueWithContext, j: int)
    requires
        0 <= j <= s.len(),
        forall|m: int| j <= m < s.len() ==> (#[trigger] s[m]).value.start > key.value.start,
    ensures
        insert_in_order(s, key) == insert_in_order(s.take(j), key) + s.subrange(j, s.len() as int),
    decreases s.len() - j,
{
    if j == s.len() {
        assert(s.take(j) =~= s);
        assert(insert_in_order(s.take(j), key) + s.subrange(j, s.len() as int) =~= insert_in_order(
            s,
            key,
        ));
    } else {
        assert(s[s.len() - 1].value.start > key.value.start);
        assert forall|m: int| j <= m < s.drop_last().len() implies (#[trigger] s.drop_last()[m]).value.start
            > key.value.start by {
            assert(s.drop_last()[m] == s[m]);
        }
        lemma_insert_in_order_split(s.drop_last(), key, j);
        assert(s.drop_last().take(j) =~= s.take(j));
        assert(s.drop_last().subrange(j, s.drop_last().len() as int).push(s.last()) =~= s.subrange(
            j,
            s.len() as int,
        ));
        assert(insert_in_order(s, key) =~= insert_in_order(s.take(j), key) + s.subrange(
            j,
            s.len() as int,
        ));
    }
}

/// Arranges the projected records into global document order.
pub fn arrange_records(rs: Vec<ValueWithContext>) -> (r: Vec<ValueWithContext>)
    ensures
        r@ == order_records(rs@),
{
    let mut out: Vec<ValueWithContext> = Vec::new();
    proof {
        assert(order_records(rs@.take(0)) =~= Seq::<ValueWithContext>::empty());
    }
    let mut i: usize = 0;
    while i < rs.len()
        invariant
            i <= rs@.len(),
            out@ == order_records(rs@.take(i as int)),
        decreases rs@.len() - i,
    {
        let key = rs[i];
        let mut j: usize = out.len();
        while j > 0 && out[j - 1].value.start > key.value.start
            invariant
                j <= out@.len(),
                forall|m: int| j <= m < out@.len() ==> (#[trigger] out@[m]).value.start
                    > key.value.start,
            decreases j,
        {
            j = j - 1;
        }
        proof {
            lemma_insert_in_order_split(out@, key, j as int);
            if j > 0 {
                assert(out@.take(j as int).last() == out@[j - 1]);
            }
            assert(insert_in_order(out@.take(j as int), key) =~= out@.take(j as int).push(key));
            assert(out@.insert(j as int, key) =~= out@.take(j as int).push(key) + out@.subrange(
                j as int,
                out@.len() as int,
            ));
        }
        out.insert(j, key);
        proof {
            assert(rs@.take(i + 1).drop_last() =~= rs@.take(i as int));
            assert(rs@.take(i + 1).last() == rs@[i as int]);
        }
        i = i + 1;
    }
    proof {
        assert(rs@.take(rs@.len() as int) =~= rs@);
    }
    out
}

} // verus!

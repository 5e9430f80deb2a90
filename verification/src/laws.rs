//! The library's stated laws: what holds of every selection, proved once
//! and for all over the match semantics.

use vstd::prelude::*;
use crate::engine::MatchSpec;
use crate::engine::ValueWithContext;
use crate::engine::attrpath_matches;
use crate::engine::collect_list;
use crate::engine::collect_matches;
use crate::engine::head_matches;
use crate::engine::match_records;
use crate::engine::records_of;
use crate::engine::lemma_order_records_props;
use crate::engine::lemma_order_records_sorted;
use crate::engine::starts_nondecreasing;
use crate::engine::extract_body;
use crate::engine::extract_head;
use crate::engine::body_matches;
use crate::pattern::PatternNode;
use crate::pattern::frame_body;
use crate::tree::lemma_wf_children_index;
use crate::tree::lemma_non_comment_sub;
use crate::select::NixFile;
use crate::scope::FrameKind;
use crate::tree::NodeKind;
use crate::tree::SyntaxNode;
use crate::tree::non_comment;

verus! {

/// Whether `d` is a node of the subtree rooted at `n`.
pub open spec fn in_tree(d: SyntaxNode, n: SyntaxNode) -> bool
    decreases n,
{
    d == n || in_list(d, n.children@)
}

/// Whether `d` is a node of one of the subtrees in `s`.
pub open spec fn in_list(d: SyntaxNode, s: Seq<SyntaxNode>) -> bool
    decreases s,
{
    s.len() > 0 && (in_tree(d, s[0]) || in_list(d, s.drop_first()))
}

/// Whether `d` is a binding whose attribute path spells exactly `segs`.
pub open spec fn binding_spells(d: SyntaxNode, segs: Seq<Seq<u8>>, src: Seq<u8>) -> bool {
    let cs = non_comment(d.children@);
    &&& d.kind == NodeKind::Binding
    &&& cs.len() == 2
    &&& cs[0].kind == NodeKind::Attrpath
    &&& attrpath_matches(cs[0], segs, src)
}

/// An attribute path that no binding of the document spells yields no
/// match at all — an empty result sequence, not an error.
pub proof fn lemma_absent_path_empty(segs: Seq<Seq<u8>>, body: PatternNode, n: SyntaxNode, src: Seq<u8>)
    requires
        forall|d: SyntaxNode| #[trigger] in_tree(d, n) ==> !binding_spells(d, segs, src),
    ensures
        collect_matches(segs, body, n, src) == Seq::<MatchSpec>::empty(),
        records_of(collect_matches(segs, body, n, src)) == Seq::<ValueWithContext>::empty(),
    decreases n,
{
    assert(in_tree(n, n));
    assert(!head_matches(segs, body, n, src));
    assert forall|d: SyntaxNode| #[trigger] in_list(d, n.children@) implies !binding_spells(
        d,
        segs,
        src,
    ) by {
        assert(in_tree(d, n));
    }
    lemma_absent_list(segs, body, n.children@, src);
    assert(collect_matches(segs, body, n, src) =~= Seq::<MatchSpec>::empty());
}

/// The list form of `lemma_absent_path_empty`.
proof fn lemma_absent_list(segs: Seq<Seq<u8>>, body: PatternNode, s: Seq<SyntaxNode>, src: Seq<u8>)
    requires
        forall|d: SyntaxNode| #[trigger] in_list(d, s) ==> !binding_spells(d, segs, src),
    ensures
        collect_list(segs, body, s, src) == Seq::<MatchSpec>::empty(),
    decreases s,
{
    if s.len() > 0 {
        assert forall|d: SyntaxNode| #[trigger] in_tree(d, s[0]) implies !binding_spells(
            d,
            segs,
            src,
        ) by {
            assert(in_list(d, s));
        }
        assert forall|d: SyntaxNode| #[trigger] in_list(d, s.drop_first()) implies !binding_spells(
            d,
            segs,
            src,
        ) by {
            assert(in_list(d, s));
        }
        lemma_absent_path_empty(segs, body, s[0], src);
        lemma_absent_list(segs, body, s.drop_first(), src);
        assert(collect_list(segs, body, s, src) =~= Seq::<MatchSpec>::empty());
    }
}

/// Names are matched literally, never as patterns: whenever a selection
/// reports anything at all, some binding of the document spells the
/// requested segments byte for byte. A name that merely resembles the
/// request under some pattern reading produces nothing.
pub proof fn lemma_match_is_literal(segs: Seq<Seq<u8>>, body: PatternNode, n: SyntaxNode, src: Seq<u8>)
    requires
        collect_matches(segs, body, n, src).len() > 0,
    ensures
        exists|d: SyntaxNode| #[trigger] in_tree(d, n) && binding_spells(d, segs, src),
{
    if !(exists|d: SyntaxNode| #[trigger] in_tree(d, n) && binding_spells(d, segs, src)) {
        assert forall|d: SyntaxNode| #[trigger] in_tree(d, n) implies !binding_spells(
            d,
            segs,
            src,
        ) by {}
        lemma_absent_path_empty(segs, body, n, src);
    }
}

/// The converse: whenever some node of the document is a binding that
/// spells the requested segments and wraps a matching body, the engine
/// reports at least that match. Together with `lemma_absent_path_empty`,
/// a selection is empty exactly when nothing in the document matches.
pub proof fn lemma_present_match_found(segs: Seq<Seq<u8>>, body: PatternNode, n: SyntaxNode, src: Seq<u8>)
    requires
        exists|d: SyntaxNode| #[trigger] in_tree(d, n) && head_matches(segs, body, d, src),
    ensures
        collect_matches(segs, body, n, src).len() > 0,
    decreases n,
{
    let d = choose|d: SyntaxNode| #[trigger] in_tree(d, n) && head_matches(segs, body, d, src);
    if head_matches(segs, body, n, src) {
        assert(collect_matches(segs, body, n, src).len() >= 1);
    } else {
        assert(d != n);
        assert(in_list(d, n.children@));
        lemma_present_list(segs, body, n.children@, src);
    }
}

/// The list form of `lemma_present_match_found`.
proof fn lemma_present_list(segs: Seq<Seq<u8>>, body: PatternNode, s: Seq<SyntaxNode>, src: Seq<u8>)
    requires
        exists|d: SyntaxNode| #[trigger] in_list(d, s) && head_matches(segs, body, d, src),
    ensures
        collect_list(segs, body, s, src).len() > 0,
    decreases s,
{
    let d = choose|d: SyntaxNode| #[trigger] in_list(d, s) && head_matches(segs, body, d, src);
    if in_tree(d, s[0]) {
        assert(in_tree(d, s[0]) && head_matches(segs, body, d, src));
        lemma_present_match_found(segs, body, s[0], src);
    } else {
        assert(in_list(d, s.drop_first()) && head_matches(segs, body, d, src));
        lemma_present_list(segs, body, s.drop_first(), src);
    }
}

/// The session form of the two lemmas above: a request selects nothing
/// exactly when no binding of the document spells its path (emptiness is
/// the documented way to say "no such value", never an error), and it
/// reports a match whenever one is there to report.
pub proof fn lemma_selection_empty_iff_absent(file: NixFile, segs: Seq<Seq<u8>>, kinds: Seq<FrameKind>)
    ensures
        (forall|d: SyntaxNode| #[trigger] in_tree(d, file.tree) ==> !binding_spells(
            d,
            segs,
            file.contents@,
        )) ==> file.spec_matches(segs, kinds).len() == 0 && file.spec_selected(segs, kinds)
            == Seq::<ValueWithContext>::empty(),
        (exists|d: SyntaxNode| #[trigger] in_tree(d, file.tree) && head_matches(
            segs,
            frame_body(kinds),
            d,
            file.contents@,
        )) ==> file.spec_matches(segs, kinds).len() > 0,
{
    if forall|d: SyntaxNode| #[trigger] in_tree(d, file.tree) ==> !binding_spells(
        d,
        segs,
        file.contents@,
    ) {
        lemma_absent_path_empty(segs, frame_body(kinds), file.tree, file.contents@);
    }
    if exists|d: SyntaxNode| #[trigger] in_tree(d, file.tree) && head_matches(
        segs,
        frame_body(kinds),
        d,
        file.contents@,
    ) {
        lemma_present_match_found(segs, frame_body(kinds), file.tree, file.contents@);
    }
}

/// A match that bound zero elements (an empty list matched structurally)
/// contributes zero records: it is a valid outcome, not an error and not
/// a dropped match.
pub proof fn lemma_empty_match_no_records(m: MatchSpec)
    requires
        m.elements.len() == 0,
    ensures
        match_records(m) == Seq::<ValueWithContext>::empty(),
{
    assert(match_records(m) =~= Seq::<ValueWithContext>::empty());
}

/// Structural soundness of one match over a text of length `limit`:
/// every bound element lies inside the text, the elements ascend in
/// left-to-right source order, and when an enclosing scope is reported
/// every element lies inside the scope construct's byte range.
pub open spec fn match_sound(m: MatchSpec, limit: nat) -> bool {
    &&& forall|k: int| 0 <= k < m.elements.len() ==> (#[trigger] m.elements[k]).start
        <= m.elements[k].end && m.elements[k].end <= limit
    &&& forall|i: int, j: int|
        #![trigger m.elements[i], m.elements[j]]
        0 <= i < j < m.elements.len() ==> m.elements[i].end <= m.elements[j].start
    &&& match m.context {
        Some(c) => {
            &&& c.frame.start <= c.frame.end
            &&& c.frame.end <= limit
            &&& forall|k: int| 0 <= k < m.elements.len() ==> c.frame.start
                <= (#[trigger] m.elements[k]).start && m.elements[k].end <= c.frame.end
        },
        None => true,
    }
}

/// Structural soundness of one record: the value lies inside the text,
/// and inside the reported scope construct whenever one is present.
pub open spec fn record_sound(r: ValueWithContext, limit: nat) -> bool {
    &&& r.value.start <= r.value.end
    &&& r.value.end <= limit
    &&& match r.context {
        Some(c) => c.frame.start <= r.value.start && r.value.end <= c.frame.end && c.frame.end
            <= limit,
        None => true,
    }
}

/// Skipping comments keeps the siblings' source order.
proof fn lemma_non_comment_ordered(s: Seq<SyntaxNode>)
    requires
        forall|i: int, j: int|
            #![trigger s[i], s[j]]
            0 <= i < j < s.len() ==> s[i].end <= s[j].start,
    ensures
        forall|i: int, j: int|
            #![trigger non_comment(s)[i], non_comment(s)[j]]
            0 <= i < j < non_comment(s).len() ==> non_comment(s)[i].end <= non_comment(s)[j].start,
    decreases s.len(),
{
    if s.len() > 0 {
        lemma_non_comment_ordered(s.drop_last());
        lemma_non_comment_sub(s.drop_last());
        let cs = non_comment(s);
        let prefix = non_comment(s.drop_last());
        assert forall|i: int, j: int|
            #![trigger cs[i], cs[j]]
            0 <= i < j < cs.len() implies cs[i].end <= cs[j].start by {
            if j < prefix.len() {
                assert(cs[i] == prefix[i] && cs[j] == prefix[j]);
            } else {
                assert(cs[j] == s.last());
                assert(cs[i] == prefix[i]);
                let w = choose|w: int|
                    0 <= w < s.drop_last().len() && prefix[i] == s.drop_last()[w];
                assert(s[w] == s.drop_last()[w]);
                assert(s[w].end <= s[s.len() - 1].start);
            }
        }
    }
}

/// The roles a body match binds are sound, lie inside the matched node,
/// and so does the reported scope construct.
proof fn lemma_extract_sound(p: PatternNode, n: SyntaxNode, limit: nat)
    requires
        n.wf(limit),
        body_matches(p, n),
    ensures
        match_sound(extract_body(p, n), limit),
        forall|k: int| 0 <= k < extract_body(p, n).elements.len() ==> n.start
            <= (#[trigger] extract_body(p, n).elements[k]).start && extract_body(
            p,
            n,
        ).elements[k].end <= n.end,
        match extract_body(p, n).context {
            Some(c) => n.start <= c.frame.start && c.frame.end <= n.end,
            None => true,
        },
    decreases p,
{
    lemma_wf_children_index(n.children@, n.start as nat, n.end as nat, limit);
    lemma_non_comment_sub(n.children@);
    let cs = non_comment(n.children@);
    match p {
        PatternNode::ListElements => {
            lemma_non_comment_ordered(n.children@);
            let m = extract_body(p, n);
            assert forall|k: int| 0 <= k < m.elements.len() implies n.start
                <= (#[trigger] m.elements[k]).start && m.elements[k].start <= m.elements[k].end
                && m.elements[k].end <= n.end by {
                assert(m.elements[k] == cs[k].spec_span());
                let w = choose|w: int| 0 <= w < n.children@.len() && cs[k] == n.children@[w];
                assert(n.children@[w].wf(limit));
                assert(n.children@[w].start <= n.children@[w].end);
            }
            assert forall|i: int, j: int|
                #![trigger m.elements[i], m.elements[j]]
                0 <= i < j < m.elements.len() implies m.elements[i].end <= m.elements[j].start by {
                assert(m.elements[i] == cs[i].spec_span());
                assert(m.elements[j] == cs[j].spec_span());
            }
        },
        PatternNode::DynamicFrame(inner) => {
            let w = choose|w: int| 0 <= w < n.children@.len() && cs[1] == n.children@[w];
            assert(n.children@[w].wf(limit));
            lemma_extract_sound(*inner, cs[1], limit);
            assert(n.start <= n.end && n.end <= limit);
        },
        PatternNode::LexicalFrame(inner) => {
            let w = choose|w: int| 0 <= w < n.children@.len() && cs[1] == n.children@[w];
            assert(n.children@[w].wf(limit));
            lemma_extract_sound(*inner, cs[1], limit);
            assert(n.start <= n.end && n.end <= limit);
        },
    }
}

/// Every match the engine collects from a well-formed tree is sound.
proof fn lemma_collect_sound(segs: Seq<Seq<u8>>, body: PatternNode, n: SyntaxNode, src: Seq<u8>, limit: nat)
    requires
        n.wf(limit),
    ensures
        forall|i: int| 0 <= i < collect_matches(segs, body, n, src).len() ==> match_sound(
            #[trigger] collect_matches(segs, body, n, src)[i],
            limit,
        ),
    decreases n,
{
    lemma_wf_children_index(n.children@, n.start as nat, n.end as nat, limit);
    lemma_non_comment_sub(n.children@);
    let cs = non_comment(n.children@);
    let here: Seq<MatchSpec> = if head_matches(segs, body, n, src) {
        seq![extract_head(body, n)]
    } else {
        Seq::empty()
    };
    if head_matches(segs, body, n, src) {
        let w = choose|w: int| 0 <= w < n.children@.len() && cs[1] == n.children@[w];
        assert(n.children@[w].wf(limit));
        lemma_extract_sound(body, cs[1], limit);
        assert(match_sound(here[0], limit));
    }
    lemma_collect_sound_list(segs, body, n.children@, src, limit);
    let rest = collect_list(segs, body, n.children@, src);
    assert forall|i: int| 0 <= i < collect_matches(segs, body, n, src).len() implies match_sound(
        #[trigger] collect_matches(segs, body, n, src)[i],
        limit,
    ) by {
        if i < here.len() {
            assert(collect_matches(segs, body, n, src)[i] == here[i]);
        } else {
            assert(collect_matches(segs, body, n, src)[i] == rest[i - here.len()]);
        }
    }
}

/// The list form of `lemma_collect_sound`.
proof fn lemma_collect_sound_list(
    segs: Seq<Seq<u8>>,
    body: PatternNode,
    s: Seq<SyntaxNode>,
    src: Seq<u8>,
    limit: nat,
)
    requires
        forall|k: int| 0 <= k < s.len() ==> (#[trigger] s[k]).wf(limit),
    ensures
        forall|i: int| 0 <= i < collect_list(segs, body, s, src).len() ==> match_sound(
            #[trigger] collect_list(segs, body, s, src)[i],
            limit,
        ),
    decreases s,
{
    if s.len() > 0 {
        lemma_collect_sound(segs, body, s[0], src, limit);
        assert forall|k: int| 0 <= k < s.drop_first().len() implies (#[trigger] s.drop_first()[k]).wf(
            limit,
        ) by {
            assert(s.drop_first()[k] == s[k + 1]);
        }
        lemma_collect_sound_list(segs, body, s.drop_first(), src, limit);
        let a = collect_matches(segs, body, s[0], src);
        let b = collect_list(segs, body, s.drop_first(), src);
        assert forall|i: int| 0 <= i < collect_list(segs, body, s, src).len() implies match_sound(
            #[trigger] collect_list(segs, body, s, src)[i],
            limit,
        ) by {
            if i < a.len() {
                assert(collect_list(segs, body, s, src)[i] == a[i]);
            } else {
                assert(collect_list(segs, body, s, src)[i] == b[i - a.len()]);
            }
        }
    }
}

/// Sound matches project to sound records.
proof fn lemma_records_sound(ms: Seq<MatchSpec>, limit: nat)
    requires
        forall|i: int| 0 <= i < ms.len() ==> match_sound(#[trigger] ms[i], limit),
    ensures
        forall|j: int| 0 <= j < records_of(ms).len() ==> record_sound(
            #[trigger] records_of(ms)[j],
            limit,
        ),
    decreases ms.len(),
{
    if ms.len() > 0 {
        let a = match_records(ms[0]);
        let b = records_of(ms.drop_first());
        assert forall|k: int| 0 <= k < a.len() implies record_sound(#[trigger] a[k], limit) by {
            assert(a[k] == ValueWithContext { context: ms[0].context, value: ms[0].elements[k] });
        }
        assert forall|i: int| 0 <= i < ms.drop_first().len() implies match_sound(
            #[trigger] ms.drop_first()[i],
            limit,
        ) by {
            assert(ms.drop_first()[i] == ms[i + 1]);
        }
        lemma_records_sound(ms.drop_first(), limit);
        assert forall|j: int| 0 <= j < records_of(ms).len() implies record_sound(
            #[trigger] records_of(ms)[j],
            limit,
        ) by {
            if j < a.len() {
                assert(records_of(ms)[j] == a[j]);
            } else {
                assert(records_of(ms)[j] == b[j - a.len()]);
            }
        }
    }
}

/// Every match of a selection over a well-formed session is sound: its
/// elements lie inside the text, they ascend in left-to-right source
/// order (so reversing the elements of the input reverses each match's
/// output order identically), and they lie inside the reported scope.
pub proof fn lemma_selection_sound(file: NixFile, segs: Seq<Seq<u8>>, kinds: Seq<FrameKind>)
    requires
        file.wf(),
    ensures
        forall|i: int| 0 <= i < file.spec_matches(segs, kinds).len() ==> match_sound(
            #[trigger] file.spec_matches(segs, kinds)[i],
            file.contents@.len(),
        ),
{
    lemma_collect_sound(segs, frame_body(kinds), file.tree, file.contents@, file.contents@.len());
}

/// Every record of a selection lies inside the text, and inside the
/// enclosing scope construct whenever the record reports one.
pub proof fn lemma_value_inside_context(file: NixFile, segs: Seq<Seq<u8>>, kinds: Seq<FrameKind>)
    requires
        file.wf(),
    ensures
        forall|j: int| 0 <= j < file.spec_selected(segs, kinds).len() ==> record_sound(
            #[trigger] file.spec_selected(segs, kinds)[j],
            file.contents@.len(),
        ),
{
    lemma_selection_sound(file, segs, kinds);
    lemma_records_sound(file.spec_matches(segs, kinds), file.contents@.len());
    let limit = file.contents@.len();
    lemma_order_records_props(
        records_of(file.spec_matches(segs, kinds)),
        |r: ValueWithContext| record_sound(r, limit),
    );
}

/// Enumeration order equals left-to-right document order: along the
/// whole record stream the located values' start bytes never decrease,
/// also when a matching binding nests inside an element of another
/// match. Together with each match's strictly ordered elements
/// (`lemma_selection_sound`), a positional edit derived from one record
/// never has to look behind an earlier one.
pub proof fn lemma_selection_in_document_order(file: NixFile, segs: Seq<Seq<u8>>, kinds: Seq<FrameKind>)
    ensures
        starts_nondecreasing(file.spec_selected(segs, kinds)),
{
    lemma_order_records_sorted(records_of(file.spec_matches(segs, kinds)));
}

/// Selection is deterministic: two sessions over the same text and tree
/// give the same record stream to the same request, so re-running a
/// compiled request yields identical, order-preserving results.
pub proof fn lemma_selection_deterministic(
    a: NixFile,
    b: NixFile,
    segs: Seq<Seq<u8>>,
    kinds: Seq<FrameKind>,
)
    requires
        a.contents@ == b.contents@,
        a.tree == b.tree,
    ensures
        a.spec_selected(segs, kinds) == b.spec_selected(segs, kinds),
        a.spec_matches(segs, kinds) == b.spec_matches(segs, kinds),
{
}

} // verus!

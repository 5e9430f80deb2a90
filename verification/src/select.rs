//! The selection session: a parsed document, the selector entry point,
//! and the restartable result stream.

use vstd::prelude::*;
use crate::engine::MatchResult;
use crate::engine::ValueWithContext;
use crate::engine::build_records;
use crate::engine::collect_matches;
use crate::engine::find_matches;
use crate::engine::order_records;
use crate::engine::records_of;
use crate::engine::starts_nondecreasing;
use crate::engine::arrange_records;
use crate::error::SelectError;
use crate::path::AttributePath;
use crate::pattern::ValueShape;
use crate::pattern::compile;
use crate::pattern::frame_body;
use crate::scope::FrameKind;
use crate::scope::ScopeFrame;
use crate::scope::describe;
use crate::scope::strictly_nested;
use crate::tree::Span;
use crate::tree::SyntaxNode;

verus! {

/// A document under selection: the original text, owned for the whole
/// session, and its immutable syntax tree. Neither is ever mutated.
pub struct NixFile {
    pub contents: Vec<u8>,
    pub tree: SyntaxNode,
}

impl NixFile {
    /// The tree is well formed over the text: every node's byte range
    /// lies inside the text and inside its parent, siblings in order.
    pub open spec fn wf(&self) -> bool {
        self.tree.wf(self.contents@.len())
    }

    /// Assembles a session from a text and the syntax tree a provider
    /// built for it.
    pub fn from_parts(contents: Vec<u8>, tree: SyntaxNode) -> (r: NixFile)
        requires
            tree.wf(contents@.len()),
        ensures
            r.wf(),
            r.contents@ == contents@,
            r.tree == tree,
    {
        NixFile { contents, tree }
    }

    /// The record stream a request denotes: every match of the compiled
    /// pattern in the tree, projected to one record per bound element and
    /// arranged into global document order (ascending by the value's
    /// start byte; equal starts keep match order).
    pub open spec fn spec_selected(&self, segs: Seq<Seq<u8>>, kinds: Seq<FrameKind>) -> Seq<
        ValueWithContext,
    > {
        order_records(records_of(collect_matches(segs, frame_body(kinds), self.tree, self.contents@)))
    }

    /// The matches themselves, before projection.
    pub open spec fn spec_matches(&self, segs: Seq<Seq<u8>>, kinds: Seq<FrameKind>) -> Seq<
        crate::engine::MatchSpec,
    > {
        collect_matches(segs, frame_body(kinds), self.tree, self.contents@)
    }

    /// Compiles a request and runs it against the document. The result is
    /// a pure function of the text, the tree and the request, so running
    /// the same request twice yields identical, order-preserving streams.
    /// An absent attribute path is not an error: it yields a query with
    /// zero matches and zero records.
    pub fn select_value(&self, path: &AttributePath, shape: ValueShape, frames: &Vec<ScopeFrame>) -> (r:
        Result<ValueQuery, SelectError>)
        requires
            self.wf(),
        ensures
            r is Ok <==> (strictly_nested(frames@) && shape == ValueShape::ListElements),
            !strictly_nested(frames@) ==> r == Err::<ValueQuery, SelectError>(
                SelectError::InvalidScopeOrdering,
            ),
            strictly_nested(frames@) && shape != ValueShape::ListElements ==> r == Err::<
                ValueQuery,
                SelectError,
            >(SelectError::UnsupportedValueShape),
            r is Ok ==> r->Ok_0@ == self.spec_selected(
                path@,
                frames@.map_values(|f: ScopeFrame| f.kind),
            ),
            r is Ok ==> r->Ok_0.position() == 0,
            r is Ok ==> starts_nondecreasing(r->Ok_0@),
            r is Ok ==> r->Ok_0.spec_match_count() == self.spec_matches(
                path@,
                frames@.map_values(|f: ScopeFrame| f.kind),
            ).len(),
    {
        let chain = match describe(frames) {
            Ok(c) => c,
            Err(e) => {
                return Err(e);
            },
        };
        let cp = match compile(path, shape, &chain) {
            Ok(c) => c,
            Err(e) => {
                return Err(e);
            },
        };
        let ms = find_matches(&cp, &self.tree, &self.contents);
        let records = arrange_records(build_records(&ms));
        proof {
            assert(ms@.map_values(|m: MatchResult| m@) == self.spec_matches(
                path@,
                frames@.map_values(|f: ScopeFrame| f.kind),
            ));
            crate::engine::lemma_order_records_sorted(records_of(ms@.map_values(|m: MatchResult| m@)));
        }
        Ok(ValueQuery { matches_found: ms.len(), records, cursor: 0 })
    }

    /// The bytes a span covers; empty when the span does not lie inside
    /// the text.
    pub fn text_at(&self, span: Span) -> (r: Vec<u8>)
        ensures
            span.start <= span.end && span.end <= self.contents@.len() ==> r@
                == self.contents@.subrange(span.start as int, span.end as int),
            !(span.start <= span.end && span.end <= self.contents@.len()) ==> r@ == Seq::<u8>::empty(),
    {
        let mut r: Vec<u8> = Vec::new();
        if span.start <= span.end && span.end <= self.contents.len() {
            let mut i: usize = span.start;
            while i < span.end
                invariant
                    span.start <= i,
                    i <= span.end,
                    span.end <= self.contents@.len(),
                    r@ == self.contents@.subrange(span.start as int, i as int),
                decreases span.end - i,
            {
                r.push(self.contents[i]);
                proof {
                    assert(self.contents@.subrange(span.start as int, i + 1)
                        =~= self.contents@.subrange(span.start as int, i as int).push(
                        self.contents@[i as int],
                    ));
                }
                i = i + 1;
            }
        }
        r
    }

    /// The text of a record's located value.
    pub fn value_text(&self, v: &ValueWithContext) -> (r: Vec<u8>)
        ensures
            v.value.start <= v.value.end && v.value.end <= self.contents@.len() ==> r@
                == self.contents@.subrange(v.value.start as int, v.value.end as int),
    {
        self.text_at(v.value)
    }

    /// The text of the part of the enclosing scope that introduces its
    /// bindings (the environment of a dynamic frame, the binding group of
    /// a lexical one); absent when the record carries no scope.
    pub fn context_text(&self, v: &ValueWithContext) -> (r: Option<Vec<u8>>)
        ensures
            r is Some <==> v.context is Some,
            match v.context {
                Some(c) => c.environment.start <= c.environment.end && c.environment.end
                    <= self.contents@.len() ==> r->0@ == self.contents@.subrange(
                    c.environment.start as int,
                    c.environment.end as int,
                ),
                None => true,
            },
    {
        match v.context {
            Some(c) => Some(self.text_at(c.environment)),
            None => None,
        }
    }
}

/// The result stream of one request: restartable, pull-based, in document
/// order. Its view is the full record sequence; `next` hands out one
/// record at a time.
pub struct ValueQuery {
    records: Vec<ValueWithContext>,
    matches_found: usize,
    cursor: usize,
}

impl View for ValueQuery {
    type V = Seq<ValueWithContext>;

    closed spec fn view(&self) -> Seq<ValueWithContext> {
        self.records@
    }
}

impl ValueQuery {
    /// How many records have already been handed out.
    pub closed spec fn position(&self) -> int {
        self.cursor as int
    }

    /// How many matches the pattern found, zero-element matches included.
    pub closed spec fn spec_match_count(&self) -> int {
        self.matches_found as int
    }

    /// The number of matches the pattern found. A match whose list held
    /// zero elements is counted here yet contributes no record.
    pub fn match_count(&self) -> (r: usize)
        ensures
            r == self.spec_match_count(),
    {
        self.matches_found
    }

    /// The total number of records in the stream.
    pub fn record_count(&self) -> (r: usize)
        ensures
            r == self@.len(),
    {
        self.records.len()
    }

    /// The record at `i`, independent of the cursor.
    pub fn get(&self, i: usize) -> (r: Option<ValueWithContext>)
        ensures
            i < self@.len() ==> r == Some(self@[i as int]),
            i >= self@.len() ==> r is None,
    {
        if i < self.records.len() {
            Some(self.records[i])
        } else {
            None
        }
    }

    /// Hands out the next record, or `None` once the stream is finished.
    /// The stream itself never changes: only the cursor advances.
    pub fn next(&mut self) -> (r: Option<ValueWithContext>)
        ensures
            final(self)@ == old(self)@,
            final(self).spec_match_count() == old(self).spec_match_count(),
            old(self).position() < old(self)@.len() ==> r == Some(old(self)@[old(self).position()])
                && final(self).position() == old(self).position() + 1,
            old(self).position() >= old(self)@.len() ==> r is None && final(self).position() == old(
                self,
            ).position(),
    {
        if self.cursor < self.records.len() {
            let v = self.records[self.cursor];
            self.cursor = self.cursor + 1;
            Some(v)
        } else {
            None
        }
    }

    /// Restarts the stream from the beginning; a fresh pass yields the
    /// same records in the same order.
    pub fn reset(&mut self)
        ensures
            final(self)@ == old(self)@,
            final(self).spec_match_count() == old(self).spec_match_count(),
            final(self).position() == 0,
    {
        self.cursor = 0;
    }
}

} // verus!

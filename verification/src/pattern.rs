//! The pattern compiler: an attribute path, a requested value shape and a
//! normalized scope chain become one structured tree-matching pattern.
//! The pattern is an explicit tree of pattern nodes, composed by folding
//! the chain from innermost to outermost; user-supplied names are held as
//! literal bytes, never interpolated into any textual pattern language.

use vstd::prelude::*;
use crate::error::SelectError;
use crate::path::AttributePath;
use crate::scope::FrameKind;
use crate::scope::NormalizedScopeChain;

verus! {

/// What kind of value a request seeks.
#[derive(Clone, Copy, PartialEq, Eq, Structural, Debug)]
pub enum ValueShape {
    /// Each direct element of a list literal.
    ListElements,
    /// A keyed entry of an attribute-set literal. No pattern is defined
    /// for this shape; requesting it fails with `UnsupportedValueShape`.
    AttrsetEntry,
}

/// One node of a structured pattern: the innermost value-shape template,
/// wrapped by one structural template per scope frame.
pub enum PatternNode {
    /// Matches a list literal; binds each element under the element role.
    ListElements,
    /// Matches a dynamic-environment construct whose body matches the
    /// inner pattern; offers its environment as the enclosing scope.
    DynamicFrame(Box<PatternNode>),
    /// Matches a lexical-binding construct whose body matches the inner
    /// pattern; offers its binding group as the enclosing scope.
    LexicalFrame(Box<PatternNode>),
}

/// A compiled request: the literal path segments the matched binding must
/// carry, and the composed body pattern its expression must match.
pub struct CompiledPattern {
    pub segments: Vec<Vec<u8>>,
    pub body: PatternNode,
}

impl CompiledPattern {
    /// The path segments as byte sequences.
    pub open spec fn segs(&self) -> Seq<Seq<u8>> {
        self.segments@.map_values(|v: Vec<u8>| v@)
    }
}

/// The body pattern that a scope chain folds into: the value-shape
/// template wrapped by each frame's template, outermost frame outermost.
pub open spec fn frame_body(kinds: Seq<FrameKind>) -> PatternNode
    decreases kinds.len(),
{
    if kinds.len() == 0 {
        PatternNode::ListElements
    } else {
        let inner = frame_body(kinds.drop_first());
        match kinds[0] {
            FrameKind::DynamicEnvironment => PatternNode::DynamicFrame(Box::new(inner)),
            FrameKind::LexicalBindings => PatternNode::LexicalFrame(Box::new(inner)),
        }
    }
}

/// Compiles a request into a structured pattern. Fails with
/// `UnsupportedValueShape` exactly when the shape is `AttrsetEntry`;
/// for `ListElements` it returns the pattern whose segments are the
/// path's and whose body is the chain's fold.
pub fn compile(path: &AttributePath, shape: ValueShape, chain: &NormalizedScopeChain) -> (r: Result<
    CompiledPattern,
    SelectError,
>)
    ensures
        r is Ok <==> shape == ValueShape::ListElements,
        r is Ok ==> r->Ok_0.segs() == path@ && r->Ok_0.body == frame_body(chain@),
        r is Err ==> r->Err_0 == SelectError::UnsupportedValueShape,
{
    match shape {
        ValueShape::AttrsetEntry => Err(SelectError::UnsupportedValueShape),
        ValueShape::ListElements => {
            let mut body = PatternNode::ListElements;
            let mut i: usize = chain.len();
            proof {
                assert(chain@.subrange(i as int, chain@.len() as int) =~= Seq::<FrameKind>::empty());
            }
            while i > 0
                invariant
                    i <= chain@.len(),
                    body == frame_body(chain@.subrange(i as int, chain@.len() as int)),
                decreases i,
            {
                i = i - 1;
                let inner = body;
                body = match chain.kind_at(i) {
                    FrameKind::DynamicEnvironment => PatternNode::DynamicFrame(Box::new(inner)),
                    FrameKind::LexicalBindings => PatternNode::LexicalFrame(Box::new(inner)),
                };
                proof {
                    let tail = chain@.subrange(i as int, chain@.len() as int);
                    assert(tail.drop_first() =~= chain@.subrange(i + 1, chain@.len() as int));
                    assert(tail[0] == chain@[i as int]);
                }
            }
            proof {
                assert(chain@.subrange(0, chain@.len() as int) =~= chain@);
            }
            Ok(CompiledPattern { segments: path.segments_copy(), body })
        }
    }
}

} // verus!

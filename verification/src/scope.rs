//! Scope frames: the closed set of scope-introducing shapes the selector
//! can compose, and the normalization of a requested frame sequence into
//! an ordered outer-to-inner chain.

use vstd::prelude::*;
use crate::error::SelectError;

verus! {

/// The two scope-introducing shapes of the host grammar.
#[derive(Clone, Copy, PartialEq, Eq, Structural, Debug)]
pub enum FrameKind {
    /// A `with environment; body` construct: all bindings of the
    /// environment become visible, at the lowest precedence.
    DynamicEnvironment,
    /// A `let bindings in body` construct: explicit name-to-value
    /// bindings, shadowing any enclosing dynamic environment; a later
    /// group shadows an earlier one.
    LexicalBindings,
}

/// One requested scope frame: its shape, and its nesting depth in the
/// document (the number of scope frames enclosing it, so the outermost
/// frame carries the smallest depth).
#[derive(Clone, Copy, PartialEq, Eq, Structural, Debug)]
pub struct ScopeFrame {
    pub kind: FrameKind,
    pub depth: usize,
}

/// Frames are strictly outer-to-inner: each frame is nested strictly
/// deeper than the one before it.
pub open spec fn strictly_nested(fs: Seq<ScopeFrame>) -> bool {
    forall|i: int, j: int|
        #![trigger fs[i], fs[j]]
        0 <= i && j == i + 1 && j < fs.len() ==> fs[i].depth < fs[j].depth
}

/// An ordered outer-to-inner chain of frame shapes, ready to be folded
/// into a compiled pattern. Its view is the sequence of shapes.
pub struct NormalizedScopeChain {
    kinds: Vec<FrameKind>,
}

impl View for NormalizedScopeChain {
    type V = Seq<FrameKind>;

    closed spec fn view(&self) -> Seq<FrameKind> {
        self.kinds@
    }
}

impl NormalizedScopeChain {
    /// The number of frames in the chain.
    pub fn len(&self) -> (r: usize)
        ensures
            r == self@.len(),
    {
        self.kinds.len()
    }

    /// The shape of the frame at `i`, outermost first.
    pub fn kind_at(&self, i: usize) -> (r: FrameKind)
        requires
            i < self@.len(),
        ensures
            r == self@[i as int],
    {
        self.kinds[i]
    }
}

/// Flattens a requested frame sequence into an ordered chain. Fails with
/// `InvalidScopeOrdering` exactly when the frames are not given strictly
/// outer-to-inner; a malformed chain would otherwise silently compile
/// into an unsatisfiable or wrong pattern.
pub fn describe(frames: &Vec<ScopeFrame>) -> (r: Result<NormalizedScopeChain, SelectError>)
    ensures
        r is Ok <==> strictly_nested(frames@),
        r is Ok ==> r->Ok_0@ == frames@.map_values(|f: ScopeFrame| f.kind),
        r is Err ==> r->Err_0 == SelectError::InvalidScopeOrdering,
{
    let mut kinds: Vec<FrameKind> = Vec::new();
    let mut i: usize = 0;
    while i < frames.len()
        invariant
            i <= frames@.len(),
            kinds@ == frames@.map_values(|f: ScopeFrame| f.kind).take(i as int),
            forall|k: int, l: int|
                #![trigger frames@[k], frames@[l]]
                0 <= k && l == k + 1 && l < i ==> frames@[k].depth < frames@[l].depth,
        decreases frames@.len() - i,
    {
        if i > 0 && frames[i - 1].depth >= frames[i].depth {
            return Err(SelectError::InvalidScopeOrdering);
        }
        kinds.push(frames[i].kind);
        proof {
            assert(kinds@ =~= frames@.map_values(|f: ScopeFrame| f.kind).take(i + 1));
        }
        i = i + 1;
    }
    proof {
        assert(frames@.map_values(|f: ScopeFrame| f.kind).take(frames@.len() as int)
            =~= frames@.map_values(|f: ScopeFrame| f.kind));
    }
    Ok(NormalizedScopeChain { kinds })
}

} // verus!

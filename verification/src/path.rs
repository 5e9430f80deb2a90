//! Attribute paths: the non-empty sequence of name segments that addresses
//! a value. A segment is matched against the document literally, byte for
//! byte, so a name containing pattern-special characters selects exactly
//! the attribute spelled that way and nothing else.

use vstd::prelude::*;
use crate::error::SelectError;

verus! {

/// A byte that may appear verbatim in an attribute name of the host
/// grammar: no quote, no backslash, no control character.
pub open spec fn allowed_byte(b: u8) -> bool {
    b != 34 && b != 92 && b >= 32 && b != 127
}

/// A segment is valid when it is non-empty, every byte may appear verbatim
/// in an attribute name, and it contains no interpolation opener `${`.
pub open spec fn valid_segment(s: Seq<u8>) -> bool {
    &&& s.len() > 0
    &&& forall|i: int| 0 <= i < s.len() ==> allowed_byte(#[trigger] s[i])
    &&& forall|i: int, j: int|
        #![trigger s[i], s[j]]
        0 <= i && j == i + 1 && j < s.len() ==> !(s[i] == 36 && s[j] == 123)
}

/// A path is valid when it has at least one segment and every segment is.
pub open spec fn valid_path(segs: Seq<Seq<u8>>) -> bool {
    &&& segs.len() > 0
    &&& forall|i: int| 0 <= i < segs.len() ==> valid_segment(#[trigger] segs[i])
}

/// A dotted spelling split at every `.`: the segments between the dots, in
/// order, kept even when empty (an empty segment makes the path invalid).
pub open spec fn split_at_dots(s: Seq<u8>) -> Seq<Seq<u8>>
    decreases s.len(),
{
    if s.len() == 0 {
        seq![Seq::empty()]
    } else if s.last() == 46 {
        split_at_dots(s.drop_last()).push(Seq::empty())
    } else {
        let p = split_at_dots(s.drop_last());
        p.update(p.len() - 1, p.last().push(s.last()))
    }
}

/// A validated attribute path: non-empty, every segment embeddable as an
/// attribute name. Its view is the sequence of segments as byte sequences.
pub struct AttributePath {
    segments: Vec<Vec<u8>>,
}

impl View for AttributePath {
    type V = Seq<Seq<u8>>;

    closed spec fn view(&self) -> Seq<Seq<u8>> {
        self.segments@.map_values(|v: Vec<u8>| v@)
    }
}

/// Checks one segment for validity.
fn segment_ok(seg: &Vec<u8>) -> (r: bool)
    ensures
        r == valid_segment(seg@),
{
    if seg.len() == 0 {
        return false;
    }
    let mut i: usize = 0;
    while i < seg.len()
        invariant
            i <= seg@.len(),
            forall|k: int| 0 <= k < i ==> allowed_byte(#[trigger] seg@[k]),
            forall|k: int, l: int|
                #![trigger seg@[k], seg@[l]]
                0 <= k && l == k + 1 && l < i ==> !(seg@[k] == 36 && seg@[l] == 123),
        decreases seg@.len() - i,
    {
        let b = seg[i];
        if b == 34 || b == 92 || b < 32 || b == 127 {
            return false;
        }
        if i > 0 && seg[i - 1] == 36 && b == 123 {
            return false;
        }
        i = i + 1;
    }
    true
}

/// Copies a byte vector.
fn copy_bytes(v: &Vec<u8>) -> (r: Vec<u8>)
    ensures
        r@ == v@,
{
    let mut r: Vec<u8> = Vec::new();
    let mut i: usize = 0;
    while i < v.len()
        invariant
            i <= v@.len(),
            r@ == v@.take(i as int),
        decreases v@.len() - i,
    {
        r.push(v[i]);
        i = i + 1;
    }
    proof {
        assert(v@.take(v@.len() as int) =~= v@);
    }
    r
}

impl AttributePath {
    /// Builds a path from explicit segments; this is the only way to spell
    /// a segment that itself contains a `.` meant literally. Fails with
    /// `InvalidAttributePath` exactly when the segments do not form a
    /// valid path.
    pub fn from_segments(segs: Vec<Vec<u8>>) -> (r: Result<AttributePath, SelectError>)
        ensures
            r is Ok <==> valid_path(segs@.map_values(|v: Vec<u8>| v@)),
            r is Ok ==> r->Ok_0@ == segs@.map_values(|v: Vec<u8>| v@),
            r is Err ==> r->Err_0 == SelectError::InvalidAttributePath,
    {
        let ghost view = segs@.map_values(|v: Vec<u8>| v@);
        if segs.len() == 0 {
            return Err(SelectError::InvalidAttributePath);
        }
        let mut i: usize = 0;
        while i < segs.len()
            invariant
                i <= segs@.len(),
                view == segs@.map_values(|v: Vec<u8>| v@),
                forall|k: int| 0 <= k < i ==> valid_segment(#[trigger] view[k]),
            decreases segs@.len() - i,
        {
            proof {
                assert(view[i as int] == segs@[i as int]@);
            }
            if !segment_ok(&segs[i]) {
                return Err(SelectError::InvalidAttributePath);
            }
            i = i + 1;
        }
        Ok(AttributePath { segments: segs })
    }

    /// Builds a path from a dotted spelling, splitting at every `.`.
    /// Fails with `InvalidAttributePath` exactly when the split does not
    /// form a valid path (empty input, empty segment, or a byte that
    /// cannot appear in an attribute name).
    pub fn from_dotted(raw: &Vec<u8>) -> (r: Result<AttributePath, SelectError>)
        ensures
            r is Ok <==> valid_path(split_at_dots(raw@)),
            r is Ok ==> r->Ok_0@ == split_at_dots(raw@),
            r is Err ==> r->Err_0 == SelectError::InvalidAttributePath,
    {
        let mut segs: Vec<Vec<u8>> = Vec::new();
        segs.push(Vec::new());
        let mut i: usize = 0;
        while i < raw.len()
            invariant
                i <= raw@.len(),
                segs@.len() >= 1,
                segs@.map_values(|v: Vec<u8>| v@) == split_at_dots(raw@.take(i as int)),
            decreases raw@.len() - i,
        {
            proof {
                assert(raw@.take(i + 1).drop_last() =~= raw@.take(i as int));
                assert(raw@.take(i + 1).last() == raw@[i as int]);
            }
            let b = raw[i];
            if b == 46 {
                segs.push(Vec::new());
            } else {
                let mut last = segs.pop().unwrap();
                last.push(b);
                segs.push(last);
                proof {
                    let prev = split_at_dots(raw@.take(i as int));
                    assert(segs@.map_values(|v: Vec<u8>| v@) =~= prev.update(
                        prev.len() - 1,
                        prev.last().push(raw@[i as int]),
                    ));
                }
            }
            i = i + 1;
        }
        proof {
            assert(raw@.take(raw@.len() as int) =~= raw@);
        }
        Self::from_segments(segs)
    }

    /// The number of segments.
    pub fn segment_count(&self) -> (r: usize)
        ensures
            r == self@.len(),
    {
        self.segments.len()
    }

    /// A copy of the segments, for embedding into a compiled pattern.
    pub fn segments_copy(&self) -> (r: Vec<Vec<u8>>)
        ensures
            r@.map_values(|v: Vec<u8>| v@) == self@,
    {
        let mut r: Vec<Vec<u8>> = Vec::new();
        let mut i: usize = 0;
        while i < self.segments.len()
            invariant
                i <= self.segments@.len(),
                r@.len() == i,
                forall|k: int| 0 <= k < i ==> (#[trigger] r@[k])@ == self.segments@[k]@,
            decreases self.segments@.len() - i,
        {
            r.push(copy_bytes(&self.segments[i]));
            i = i + 1;
        }
        proof {
            assert(r@.map_values(|v: Vec<u8>| v@) =~= self@);
        }
        r
    }
}

} // verus!

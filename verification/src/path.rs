//! From the scope path of the template engine to a pointer into the value
//! tree.
//!
//! The engine writes the scope it stands in as segments between separators:
//! `.` for the current scope, a key or an index in brackets for each step
//! down, as in `./servers/[0]`. A pointer names the same steps bare, each
//! after a separator: `/servers/0`. Nothing is escaped on the way, so a key
//! that holds a separator or a tilde is not addressed by the pointer made for
//! it.

use crate::text::{chars_of, rows, split, split_chars, string_of};
use vstd::prelude::*;

verus! {

/// Separates the segments of a scope path, and of a pointer.
pub const SEPARATOR: char = '/';

/// Whether `segment` is the marker of the current scope, `.`.
pub open spec fn is_current(segment: Seq<char>) -> bool {
    segment.len() == 1 && segment[0] == '.'
}

/// Whether `segment` is wrapped in brackets, as an index is: `[N]`.
pub open spec fn is_bracketed(segment: Seq<char>) -> bool {
    segment.len() >= 2 && segment.first() == '[' && segment.last() == ']'
}

/// The step down the tree that a segment stands for: the segment, without
/// its brackets if it is wrapped in them.
pub open spec fn step_of(segment: Seq<char>) -> Seq<char> {
    if is_bracketed(segment) {
        segment.subrange(1, segment.len() - 1)
    } else {
        segment
    }
}

/// What one segment of a scope path adds to the pointer: nothing for the
/// marker of the current scope; otherwise a separator and then the step that
/// the segment stands for.
pub open spec fn emit(segment: Seq<char>) -> Seq<char> {
    if is_current(segment) {
        Seq::empty()
    } else {
        seq![SEPARATOR] + step_of(segment)
    }
}

/// What the segments add to the pointer, one after the other.
pub open spec fn emit_all(segments: Seq<Seq<char>>) -> Seq<char>
    decreases segments.len(),
{
    if segments.len() == 0 {
        Seq::empty()
    } else {
        emit_all(segments.drop_last()) + emit(segments.last())
    }
}

/// The pointer for a scope path. The empty path is the root and gives the
/// empty pointer; any other path is split at the separators and each segment
/// adds its part. Nothing is escaped.
pub open spec fn translate(path: Seq<char>) -> Seq<char> {
    if path.len() == 0 {
        Seq::empty()
    } else {
        emit_all(split(path, SEPARATOR))
    }
}

/// Appends to `pointer` what `segment` adds.
fn push_segment(pointer: &mut Vec<char>, segment: &Vec<char>)
    ensures
        final(pointer)@ == old(pointer)@ + emit(segment@),
{
    let n = segment.len();
    if n == 1 && segment[0] == '.' {
        return ;
    }
    let ghost before = pointer@;
    pointer.push(SEPARATOR);
    let bracketed = n >= 2 && segment[0] == '[' && segment[n - 1] == ']';
    let from: usize = if bracketed { 1 } else { 0 };
    let to: usize = if bracketed { n - 1 } else { n };
    let mut i: usize = from;
    while i < to
        invariant
            from <= i <= to <= segment.len(),
            pointer@ == before.push(SEPARATOR) + segment@.subrange(from as int, i as int),
        decreases to - i,
    {
        pointer.push(segment[i]);
        assert(segment@.subrange(from as int, i + 1) =~= segment@.subrange(
            from as int,
            i as int,
        ).push(segment@[i as int]));
        i += 1;
    }
}

/// Translates a scope path of the template engine into a pointer into the
/// value tree.
pub fn transform_path_to_pointer(path: &str) -> (pointer: String)
    ensures
        pointer@ == translate(path@),
{
    let chars = chars_of(path);
    let mut pointer: Vec<char> = Vec::new();
    if chars.len() > 0 {
        let segments = split_chars(&chars, SEPARATOR);
        let mut i: usize = 0;
        while i < segments.len()
            invariant
                i <= segments.len(),
                pointer@ == emit_all(rows(segments@).take(i as int)),
            decreases segments.len() - i,
        {
            proof {
                let upto = rows(segments@).take(i + 1);
                assert(upto.drop_last() =~= rows(segments@).take(i as int));
            }
            push_segment(&mut pointer, &segments[i]);
            i += 1;
        }
        assert(rows(segments@).take(segments.len() as int) =~= rows(segments@));
    }
    string_of(&pointer)
}

} // verus!

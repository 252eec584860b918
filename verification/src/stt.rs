//! The text of a transcription, from the segments that whisper returns.

use vstd::prelude::*;

use crate::text::{string_of_range, trim, trim_range};

verus! {

/// The segments, one after another.
pub open spec fn joined(segments: Seq<Seq<char>>) -> Seq<char>
    decreases segments.len(),
{
    if segments.len() == 0 {
        Seq::empty()
    } else {
        joined(segments.drop_last()) + segments.last()
    }
}

/// The transcript: all segments joined, with the surrounding whitespace that
/// whisper puts around them cut.
pub fn transcript(segments: &Vec<String>) -> (t: String)
    ensures
        t@ == trim(joined(segments@.map_values(|s: String| s@))),
{
    let ghost all = segments@.map_values(|s: String| s@);
    let mut out: Vec<char> = Vec::new();
    for i in 0..segments.len()
        invariant
            all == segments@.map_values(|s: String| s@),
            out@ == joined(all.take(i as int)),
    {
        crate::text::push_str(&mut out, segments[i].as_str());
        assert(all.take(i + 1).drop_last() =~= all.take(i as int));
    }
    assert(all.take(segments@.len() as int) =~= all);
    let (a, b) = trim_range(&out, 0, out.len());
    assert(out@.subrange(0, out@.len() as int) =~= out@);
    string_of_range(&out, a, b)
}

/// Joining keeps every segment, in order: the segments of `s` followed by
/// those of `t` join to the join of `s` followed by the join of `t`. So one
/// more segment adds exactly its own text at the end, a single segment joins
/// to itself, and the join is as long as all segments together.
pub proof fn joined_keeps_every_segment(s: Seq<Seq<char>>, t: Seq<Seq<char>>, x: Seq<char>)
    ensures
        joined(s + t) == joined(s) + joined(t),
        joined(s.push(x)) == joined(s) + x,
        joined(seq![x]) == x,
    decreases t.len(),
{
    if t.len() > 0 {
        joined_keeps_every_segment(s, t.drop_last(), x);
        assert((s + t).drop_last() =~= s + t.drop_last());
        assert((s + t).last() == t.last());
    } else {
        assert(s + t =~= s);
    }
    assert(s.push(x).drop_last() =~= s);
    assert(seq![x].drop_last() =~= Seq::<Seq<char>>::empty());
    assert(joined(Seq::<Seq<char>>::empty()) == Seq::<char>::empty());
    assert(seq![x].last() == x);
    assert(Seq::<char>::empty() + x =~= x);
}

} // verus!

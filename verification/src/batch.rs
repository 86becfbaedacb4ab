//! The body of one write: the lines of a batch of measurements.

use vstd::prelude::*;
use crate::join::{
    join,
    joined,
    lemma_joined_ends_with_last,
    lemma_joined_separators,
    occurrences,
    texts,
};
use crate::measurement::{line, Measurement};

verus! {

/// The lines of the measurements, in order.
pub open spec fn lines(measurements: Seq<Measurement>) -> Seq<Seq<char>> {
    measurements.map_values(|m: Measurement| line(m@))
}

/// The body of a batch: the lines with one newline between each two, none at
/// the end, and the empty text for no measurement.
pub open spec fn batch(measurements: Seq<Measurement>) -> Seq<char> {
    joined(lines(measurements), '\n')
}

/// Encodes the measurements as the body of one write.
pub fn encode_batch(measurements: &[Measurement]) -> (body: String)
    ensures
        body@ == batch(measurements@),
{
    let mut rendered: Vec<String> = Vec::new();
    let mut i: usize = 0;
    while i < measurements.len()
        invariant
            i <= measurements.len(),
            rendered.len() == i,
            forall|k: int| 0 <= k < i ==> (#[trigger] rendered[k])@ == line(measurements[k]@),
        decreases measurements.len() - i,
    {
        rendered.push(measurements[i].to_string());
        i += 1;
    }
    proof {
        assert(texts(rendered@) == lines(measurements@));
    }
    join(&rendered, '\n')
}

/// A batch of one or more measurements, none of whose lines holds a newline,
/// holds exactly one newline less than it has measurements, and does not end
/// in one.
pub proof fn lemma_batch_newlines(measurements: Seq<Measurement>)
    requires
        measurements.len() >= 1,
        forall|k: int|
            0 <= k < measurements.len() ==> !line((#[trigger] measurements[k])@).contains('\n'),
    ensures
        occurrences(batch(measurements), '\n') == measurements.len() - 1,
        batch(measurements).len() > 0,
        batch(measurements).last() != '\n',
{
    let all = lines(measurements);
    assert forall|k: int| 0 <= k < all.len() implies !(#[trigger] all[k]).contains('\n') by {
        assert(all[k] == line(measurements[k]@));
    }
    lemma_joined_separators(all, '\n');
    let last = all.last();
    assert(last == line(measurements.last()@));
    assert(last.len() > 0);
    lemma_joined_ends_with_last(all, '\n');
    assert(last.contains(last.last()));
}

} // verus!

//! Context filters: named similarity probes, each a centroid fingerprint and
//! a match threshold. A record matches a filter when the Hamming distance
//! between their fingerprints is strictly below the filter's threshold; of
//! several matching filters, the one at the smallest distance wins, ties
//! going to the first-declared filter.

use vstd::prelude::*;
use crate::errors::EngineError;
use crate::fingerprint::hamming;
use crate::fingerprint::hamming_spec;
use crate::fingerprint::is_quantization_of;
use crate::fingerprint::quantize;
use crate::fingerprint::Fingerprint;

verus! {

/// A named similarity probe, built once per run and immutable thereafter.
pub struct ContextFilter {
    pub name: String,
    pub centroid: Fingerprint,
    pub threshold: u32,
}

impl ContextFilter {
    /// Assembles a filter from its parts.
    pub fn new(name: String, centroid: Fingerprint, threshold: u32) -> (r: ContextFilter)
        ensures
            r.name == name,
            r.centroid@ == centroid@,
            r.threshold == threshold,
    {
        ContextFilter { name, centroid, threshold }
    }

    /// Width of the filter's centroid, in 64-bit words.
    pub fn width(&self) -> (w: usize)
        ensures
            w == self.centroid@.len(),
    {
        self.centroid.width()
    }
}

/// Strict threshold convention: a fingerprint matches when its distance from
/// the centroid is strictly below the filter's threshold.
pub open spec fn filter_matches(fp: Seq<u64>, f: ContextFilter) -> bool {
    hamming_spec(fp, f.centroid@) < f.threshold
}

/// The winning filter for one record: among the filters the fingerprint
/// matches, the first one at minimal distance, with that distance.
pub open spec fn best_of(fp: Seq<u64>, filters: Seq<ContextFilter>) -> Option<(int, nat)>
    decreases filters.len(),
{
    if filters.len() == 0 {
        None
    } else {
        let prev = best_of(fp, filters.drop_last());
        let j = filters.len() - 1;
        let d = hamming_spec(fp, filters.last().centroid@);
        if filter_matches(fp, filters.last()) {
            match prev {
                None => Some((j, d)),
                Some(p) => if d < p.1 {
                    Some((j, d))
                } else {
                    prev
                },
            }
        } else {
            prev
        }
    }
}

/// All filters of one run share the record fingerprint's width, and that
/// width keeps distances within `u32`.
pub open spec fn uniform_width(fp: Seq<u64>, filters: Seq<ContextFilter>) -> bool {
    &&& forall|j: int| 0 <= j < filters.len() ==> #[trigger] filters[j].centroid@.len() == fp.len()
    &&& fp.len() * 64 <= u32::MAX
}

/// Finds the single best-scoring filter for a record fingerprint, never
/// merely the first match.
pub fn best_match(fp: &Fingerprint, filters: &Vec<ContextFilter>) -> (r: Option<(usize, u32)>)
    requires
        uniform_width(fp@, filters@),
    ensures
        (r is None) == (best_of(fp@, filters@) is None),
        r matches Some(p) ==> best_of(fp@, filters@) == Some((p.0 as int, p.1 as nat)),
{
    let mut best: Option<(usize, u32)> = None;
    let mut i: usize = 0;
    proof {
        assert(filters@.take(0) =~= Seq::<ContextFilter>::empty());
    }
    while i < filters.len()
        invariant
            i <= filters@.len(),
            uniform_width(fp@, filters@),
            best is None ==> best_of(fp@, filters@.take(i as int)) is None,
            best matches Some(p) ==> best_of(fp@, filters@.take(i as int)) == Some(
                (p.0 as int, p.1 as nat),
            ),
        decreases filters@.len() - i,
    {
        let f = &filters[i];
        let d = hamming(fp, &f.centroid);
        proof {
            assert(filters@.take(i + 1).drop_last() =~= filters@.take(i as int));
            assert(filters@.take(i + 1).last() == filters@[i as int]);
        }
        if d < f.threshold {
            match best {
                None => {
                    best = Some((i, d));
                },
                Some(p) => {
                    if d < p.1 {
                        best = Some((i, d));
                    }
                },
            }
        }
        i += 1;
    }
    proof {
        assert(filters@.take(filters@.len() as int) =~= filters@);
    }
    best
}

/// The winner reported for a record is the single highest-scoring match:
/// it matches its filter, no matching filter lies strictly closer, and every
/// equally close matching filter was declared no earlier. No winner is
/// reported exactly when no filter matches.
pub proof fn lemma_best_of_is_single_best(fp: Seq<u64>, filters: Seq<ContextFilter>)
    ensures
        (best_of(fp, filters) is None) <==> (forall|j: int|
            0 <= j < filters.len() ==> !filter_matches(fp, #[trigger] filters[j])),
        best_of(fp, filters) matches Some(p) ==> {
            &&& 0 <= p.0 < filters.len()
            &&& filter_matches(fp, filters[p.0])
            &&& p.1 == hamming_spec(fp, filters[p.0].centroid@)
            &&& forall|j: int|
                0 <= j < filters.len() && filter_matches(fp, #[trigger] filters[j]) ==> p.1
                    <= hamming_spec(fp, filters[j].centroid@)
            &&& forall|j: int|
                0 <= j < p.0 && filter_matches(fp, #[trigger] filters[j]) ==> p.1
                    < hamming_spec(fp, filters[j].centroid@)
        },
    decreases filters.len(),
{
    if filters.len() > 0 {
        lemma_best_of_is_single_best(fp, filters.drop_last());
        assert forall|j: int| 0 <= j < filters.len() - 1 implies filters.drop_last()[j]
            == filters[j] by {}
    }
}

/// Threshold boundary, filter side: a record at exactly the threshold
/// distance is excluded under the strict comparison.
pub proof fn lemma_filter_threshold_boundary(fp: Seq<u64>, f: ContextFilter)
    requires
        hamming_spec(fp, f.centroid@) == f.threshold,
    ensures
        !filter_matches(fp, f),
{
}

/// Rejects an empty anchor set — and only an empty one — since the embedding
/// dimension cannot be inferred from zero anchors.
pub fn check_anchor_set(anchors: &Vec<String>) -> (r: Result<(), EngineError>)
    ensures
        r is Ok <==> anchors@.len() > 0,
        r is Err ==> r == Err::<(), EngineError>(EngineError::EmptyAnchorSet),
{
    if anchors.len() == 0 {
        Err(EngineError::EmptyAnchorSet)
    } else {
        Ok(())
    }
}

/// Builds a named filter from a non-empty anchor set. The caller supplies
/// the sign pattern of the anchors' embedding centroid (the floating-point
/// work of the provider boundary); the quantization and assembly happen
/// here. Fails with `EmptyAnchorSet` — and only then — when `anchors` is
/// empty.
pub fn build_filter(
    name: String,
    anchors: &Vec<String>,
    centroid_signs: &Vec<bool>,
    threshold: u32,
) -> (r: Result<ContextFilter, EngineError>)
    requires
        centroid_signs@.len() <= usize::MAX - 63,
    ensures
        r is Ok <==> anchors@.len() > 0,
        r is Err ==> r == Err::<ContextFilter, EngineError>(EngineError::EmptyAnchorSet),
        r matches Ok(f) ==> f.name == name && f.threshold == threshold && is_quantization_of(
            f.centroid@,
            centroid_signs@,
        ),
{
    match check_anchor_set(anchors) {
        Err(e) => Err(e),
        Ok(()) => Ok(ContextFilter { name, centroid: quantize(centroid_signs), threshold }),
    }
}

} // verus!

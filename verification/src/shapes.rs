//! Candidate hits of a ray, and the rule that picks the one that is seen.

use vstd::prelude::*;
use crate::scalar::Scalar;

verus! {

/// A candidate hit of a ray on a shape: the ray parameter `t`, and the shape
/// by its index in the scene's collection.
#[derive(Clone, Copy, Debug, PartialEq, Eq)]
pub struct Intersection {
    pub t: Scalar,
    pub object: usize,
}

impl Intersection {
    /// The hit at parameter `t` on the shape with index `object`.
    pub fn new(t: Scalar, object: usize) -> (r: Intersection)
        ensures
            r.t == t,
            r.object == object,
    {
        Intersection { t, object }
    }

    /// A hit can be seen when it lies at or in front of the ray's origin:
    /// `t >= 0`. A parameter that holds no number is never seen.
    pub open spec fn visible(self) -> bool {
        self.t.non_negative()
    }
}

/// `hits[k]` is the hit that is seen: it is visible, no visible hit has a
/// smaller parameter, and of the visible hits with that parameter it comes
/// first.
pub open spec fn nearest_at(hits: Seq<Intersection>, k: int) -> bool {
    &&& 0 <= k < hits.len()
    &&& hits[k].visible()
    &&& forall|j: int|
        0 <= j < hits.len() && #[trigger] hits[j].visible() ==> {
            &&& hits[k].t.units() <= hits[j].t.units()
            &&& j < k ==> hits[k].t.units() < hits[j].t.units()
        }
}

/// The hit that is seen among `hits`, if any is visible.
pub open spec fn nearest(hits: Seq<Intersection>) -> Option<Intersection> {
    if exists|k: int| nearest_at(hits, k) {
        Some(hits[choose|k: int| nearest_at(hits, k)])
    } else {
        None
    }
}

/// At most one position holds the hit that is seen.
pub proof fn lemma_nearest_unique(hits: Seq<Intersection>, a: int, b: int)
    requires
        nearest_at(hits, a),
        nearest_at(hits, b),
    ensures
        a == b,
{
    if a < b {
        assert(hits[a].visible());
    } else if b < a {
        assert(hits[b].visible());
    }
}

/// What is known of a sequence of hits once it has been walked: with
/// `Some(k)`, that `hits[k]` is the hit that is seen; with `None`, that no hit
/// is visible.
pub open spec fn seen_at(hits: Seq<Intersection>, at: Option<int>) -> bool {
    match at {
        Some(k) => nearest_at(hits, k),
        None => forall|j: int| 0 <= j < hits.len() ==> !(#[trigger] hits[j].visible()),
    }
}

/// Where the hit that is seen stands after one more hit: the new hit takes
/// the place when it is visible and either nothing was seen before or it is
/// strictly nearer than what was; otherwise nothing changes.
pub open spec fn seen_after(before: Seq<Intersection>, old: Option<int>, hit: Intersection)
    -> Option<int> {
    if hit.visible() && (old matches Some(k) ==> hit.t.units() < before[k].t.units()) {
        Some(before.len() as int)
    } else {
        old
    }
}

/// Extending a sequence by one hit moves the hit that is seen as
/// [`seen_after`] says.
pub proof fn lemma_seen_extends(before: Seq<Intersection>, old: Option<int>, hit: Intersection)
    requires
        seen_at(before, old),
    ensures
        seen_at(before.push(hit), seen_after(before, old, hit)),
{
    let after = before.push(hit);
    assert forall|j: int| 0 <= j < before.len() implies after[j] == before[j] by {}
    assert(after[before.len() as int] == hit);
    match seen_after(before, old, hit) {
        Some(k) => {
            assert forall|j: int| 0 <= j < after.len() && #[trigger] after[j].visible() implies {
                &&& after[k].t.units() <= after[j].t.units()
                &&& j < k ==> after[k].t.units() < after[j].t.units()
            } by {
                if j < before.len() {
                    assert(before[j].visible());
                }
            }
        },
        None => {
            assert forall|j: int| 0 <= j < after.len() implies !(#[trigger] after[j].visible()) by {
                if j < before.len() {
                    assert(!before[j].visible());
                }
            }
        },
    }
}

/// Picks the hit that the ray's origin sees: of the hits with `t >= 0` the one
/// with the smallest `t`, the earliest in `hits` where several share it.
/// `None` when no hit is visible.
pub fn nearest_hit(hits: &Vec<Intersection>) -> (r: Option<Intersection>)
    ensures
        r == nearest(hits@),
        r is None <==> forall|j: int| 0 <= j < hits.len() ==> !(#[trigger] hits[j].visible()),
{
    let mut best: Option<usize> = None;
    let mut i: usize = 0;
    while i < hits.len()
        invariant
            i <= hits.len(),
            best is None ==> seen_at(hits@.take(i as int), None),
            best matches Some(k) ==> k < i && seen_at(hits@.take(i as int), Some(k as int)),
        decreases hits.len() - i,
    {
        let candidate = hits[i];
        let mut better = false;
        if candidate.t.is_non_negative() {
            better = match best {
                None => true,
                Some(k) => candidate.t.lt(&hits[k].t),
            };
        }
        proof {
            let before = hits@.take(i as int);
            let old: Option<int> = match best {
                Some(k) => Some(k as int),
                None => None,
            };
            lemma_seen_extends(before, old, candidate);
            assert(hits@.take(i + 1) == before.push(candidate));
        }
        if better {
            best = Some(i);
        }
        i += 1;
    }
    proof {
        assert(hits@.take(hits.len() as int) == hits@);
    }
    match best {
        None => {
            proof {
                assert forall|k: int| !nearest_at(hits@, k) by {
                    if 0 <= k < hits.len() {
                        assert(!hits[k].visible());
                    }
                }
            }
            None
        },
        Some(k) => {
            proof {
                let chosen = choose|c: int| nearest_at(hits@, c);
                lemma_nearest_unique(hits@, k as int, chosen);
                assert(hits[k as int].visible());
            }
            Some(hits[k])
        },
    }
}

} // verus!

//! The scene: an ordered collection of shapes and one light.

use vstd::prelude::*;
use crate::img::Color;
use crate::scalar::Scalar;
use crate::shapes::{nearest, nearest_hit, Intersection};

verus! {

/// A scene. It owns its shapes, in the order in which they were added, and
/// exactly one light. A shape is known to the rest of the library by its
/// index in `objects`.
pub struct World<S, L> {
    pub objects: Vec<S>,
    pub light: L,
}

/// The hits of one shape: its ray parameters in order, each tagged with the
/// shape's index.
pub open spec fn hits_of(roots: Seq<Scalar>, object: usize) -> Seq<Intersection> {
    Seq::new(roots.len(), |i: int| Intersection { t: roots[i], object })
}

/// The hits of the first `count` shapes, shape after shape, where `roots[k]`
/// holds the ray parameters at which the ray meets shape `k`.
pub open spec fn all_hits(roots: Seq<Vec<Scalar>>, count: nat) -> Seq<Intersection>
    decreases count,
{
    if count == 0 {
        Seq::empty()
    } else {
        all_hits(roots, (count - 1) as nat) + hits_of(
            roots[count - 1]@,
            (count - 1) as usize,
        )
    }
}

/// Every hit collected from `count` shapes names one of them.
pub proof fn lemma_hits_name_shapes(roots: Seq<Vec<Scalar>>, count: nat)
    requires
        count <= roots.len(),
        count <= usize::MAX,
    ensures
        forall|j: int|
            0 <= j < all_hits(roots, count).len() ==> (#[trigger] all_hits(
                roots,
                count,
            )[j]).object < count,
    decreases count,
{
    if count > 0 {
        lemma_hits_name_shapes(roots, (count - 1) as nat);
        let earlier = all_hits(roots, (count - 1) as nat);
        let last = hits_of(roots[count - 1]@, (count - 1) as usize);
        assert forall|j: int| 0 <= j < all_hits(roots, count).len() implies (#[trigger] all_hits(
            roots,
            count,
        )[j]).object < count by {
            if j < earlier.len() {
                assert(all_hits(roots, count)[j] == earlier[j]);
            } else {
                assert(all_hits(roots, count)[j] == last[j - earlier.len()]);
            }
        }
    }
}

impl<S, L> World<S, L> {
    /// A scene lit by `light`, without shapes.
    pub fn new(light: L) -> (world: World<S, L>)
        ensures
            world.objects@ == Seq::<S>::empty(),
            world.light == light,
    {
        World { objects: Vec::new(), light }
    }

    /// Adds a shape behind those that the scene holds: its index is the
    /// number of shapes before the call.
    pub fn add(&mut self, object: S)
        ensures
            final(self).objects@ == old(self).objects@.push(object),
            final(self).light == old(self).light,
    {
        self.objects.push(object);
    }

    /// Collects the hits of one ray on every shape of the scene. `roots[k]`
    /// holds the ray parameters at which the ray meets shape `k`; each becomes
    /// an [`Intersection`] that names shape `k`. The hits come shape after
    /// shape, those of one shape in the order given: nothing is sorted and
    /// nothing is dropped.
    pub fn intersections(&self, roots: &Vec<Vec<Scalar>>) -> (hits: Vec<Intersection>)
        requires
            roots.len() == self.objects.len(),
        ensures
            hits@ == all_hits(roots@, roots.len() as nat),
            forall|j: int| 0 <= j < hits.len() ==> (#[trigger] hits[j]).object < self.objects.len(),
    {
        let mut hits: Vec<Intersection> = Vec::new();
        let mut k: usize = 0;
        while k < roots.len()
            invariant
                k <= roots.len(),
                hits@ == all_hits(roots@, k as nat),
            decreases roots.len() - k,
        {
            let ghost done = hits@;
            let shape_roots = &roots[k];
            let mut i: usize = 0;
            while i < shape_roots.len()
                invariant
                    i <= shape_roots.len(),
                    hits@ == done + hits_of(shape_roots@.take(i as int), k),
                decreases shape_roots.len() - i,
            {
                hits.push(Intersection::new(shape_roots[i], k));
                proof {
                    assert(hits_of(shape_roots@.take(i + 1), k) == hits_of(
                        shape_roots@.take(i as int),
                        k,
                    ).push(Intersection { t: shape_roots[i as int], object: k }));
                }
                i += 1;
            }
            proof {
                assert(shape_roots@.take(shape_roots.len() as int) == shape_roots@);
            }
            k += 1;
        }
        proof {
            lemma_hits_name_shapes(roots@, roots.len() as nat);
        }
        hits
    }

    /// The colour that a ray brings back from the scene. `roots[k]` holds the
    /// ray parameters at which the ray meets shape `k`. Where a hit is seen,
    /// the colour is what `shade` makes of that hit and the shape it names;
    /// where none is seen, it is the background, and `shade` is not called.
    pub fn color_at<F>(&self, roots: &Vec<Vec<Scalar>>, shade: F) -> (color: Color) where
        F: FnOnce(Intersection, &S) -> Color,
        requires
            roots.len() == self.objects.len(),
            forall|hit: Intersection|
                nearest(all_hits(roots@, roots.len() as nat)) == Some(hit) ==> call_requires(
                    shade,
                    (hit, &self.objects[hit.object as int]),
                ),
        ensures
            match nearest(all_hits(roots@, roots.len() as nat)) {
                Some(hit) => hit.object < self.objects.len() && call_ensures(
                    shade,
                    (hit, &self.objects[hit.object as int]),
                    color,
                ),
                None => color.is_black(),
            },
            self.objects.len() == 0 ==> color.is_black(),
    {
        proof {
            lemma_empty_scene_has_no_hit(roots@);
        }
        let hits = self.intersections(roots);
        match nearest_hit(&hits) {
            Some(hit) => {
                proof {
                    let k = choose|k: int| crate::shapes::nearest_at(hits@, k);
                    assert(hits[k].object < self.objects.len());
                }
                shade(hit, &self.objects[hit.object])
            },
            None => Color::black(),
        }
    }
}

/// A scene without shapes gives a ray nothing to hit.
pub proof fn lemma_empty_scene_has_no_hit(roots: Seq<Vec<Scalar>>)
    ensures
        all_hits(roots, 0) == Seq::<Intersection>::empty(),
        nearest(all_hits(roots, 0)) is None,
{
    assert forall|k: int| !crate::shapes::nearest_at(all_hits(roots, 0), k) by {}
}

} // verus!

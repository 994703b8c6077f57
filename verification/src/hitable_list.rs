//! An ordered collection of primitives that resolves the closest hit.

use vstd::prelude::*;
use crate::fixed::T_LIMIT;
use crate::ray::{Ray, ray_wf};
use crate::hittable_object::{HitRecord, HitModel, HittableObject, record_matches};

verus! {

/// An ordered collection of primitives, queried as a whole.
pub struct HitableList<T: HittableObject> {
    pub objects: Vec<T>,
}

/// All members are well formed.
pub open spec fn all_wf<T: HittableObject>(objs: Seq<T>) -> bool {
    forall|i: int| 0 <= i < objs.len() ==> #[trigger] objs[i].wf()
}

/// One folding step of closest-hit resolution: fold the remaining members,
/// starting from the best hit seen so far, narrowing the range to it.
pub open spec fn scene_step<T: HittableObject>(
    objs: Seq<T>,
    ray: Ray,
    t_min: int,
    closest: int,
    best: Option<HitModel>,
) -> Option<HitModel>
    decreases objs.len(),
{
    if objs.len() == 0 {
        best
    } else {
        match objs[0].hit_model(ray, t_min, closest) {
            Some(m) => scene_step(objs.subrange(1, objs.len() as int), ray, t_min, m.0, Some(m)),
            None => scene_step(objs.subrange(1, objs.len() as int), ray, t_min, closest, best),
        }
    }
}

/// The hit reported by the scene over `[t_min, t_max]`.
pub open spec fn scene_model<T: HittableObject>(
    objs: Seq<T>,
    ray: Ray,
    t_min: int,
    t_max: int,
) -> Option<HitModel> {
    scene_step(objs, ray, t_min, t_max, None)
}

/// Of two optional hits, the nearer one; the second wins ties.
pub open spec fn nearer_hit(a: Option<HitModel>, b: Option<HitModel>) -> Option<HitModel> {
    match (a, b) {
        (Some(m1), Some(m2)) => if m2.0 <= m1.0 {
            b
        } else {
            a
        },
        (Some(m1), None) => a,
        (None, _) => b,
    }
}

/// The nearest of the members' own hits over `[t_min, t_max]`; on equal
/// parameters the later member wins.
pub open spec fn best_of<T: HittableObject>(
    objs: Seq<T>,
    ray: Ray,
    t_min: int,
    t_max: int,
) -> Option<HitModel>
    decreases objs.len(),
{
    if objs.len() == 0 {
        None
    } else {
        nearer_hit(
            objs[0].hit_model(ray, t_min, t_max),
            best_of(objs.subrange(1, objs.len() as int), ray, t_min, t_max),
        )
    }
}

/// The tail of a well-formed sequence is well formed.
proof fn lemma_all_wf_tail<T: HittableObject>(objs: Seq<T>)
    requires
        all_wf(objs),
        objs.len() > 0,
    ensures
        all_wf(objs.subrange(1, objs.len() as int)),
{
    let rest = objs.subrange(1, objs.len() as int);
    assert forall|i: int| 0 <= i < rest.len() implies #[trigger] rest[i].wf() by {
        assert(rest[i] == objs[i + 1]);
    }
}

/// The nearest member hit lies within the queried range.
pub proof fn lemma_best_of_in_range<T: HittableObject>(
    objs: Seq<T>,
    ray: Ray,
    t_min: int,
    t_max: int,
)
    requires
        all_wf(objs),
        ray_wf(ray),
    ensures
        best_of(objs, ray, t_min, t_max) is Some ==> t_min <= best_of(
            objs,
            ray,
            t_min,
            t_max,
        )->Some_0.0 <= t_max,
    decreases objs.len(),
{
    if objs.len() > 0 {
        lemma_all_wf_tail(objs);
        objs[0].lemma_hit_model_in_range(ray, t_min, t_max);
        lemma_best_of_in_range(objs.subrange(1, objs.len() as int), ray, t_min, t_max);
    }
}

/// Narrowing the far end of the range keeps exactly the member hits that lie
/// within the narrowed range.
pub proof fn lemma_best_of_narrow<T: HittableObject>(
    objs: Seq<T>,
    ray: Ray,
    t_min: int,
    c: int,
    t_max: int,
)
    requires
        all_wf(objs),
        ray_wf(ray),
        t_min <= c <= t_max,
    ensures
        best_of(objs, ray, t_min, c) == (match best_of(objs, ray, t_min, t_max) {
            Some(m) => if m.0 <= c {
                Some(m)
            } else {
                None
            },
            None => None,
        }),
    decreases objs.len(),
{
    if objs.len() > 0 {
        let rest = objs.subrange(1, objs.len() as int);
        lemma_all_wf_tail(objs);
        objs[0].lemma_hit_model_narrow(ray, t_min, c, t_max);
        lemma_best_of_narrow(rest, ray, t_min, c, t_max);
    }
}

/// Folding the members with a narrowed range and a best-so-far hit yields the
/// nearer of that hit and the nearest member hit within the narrowed range.
pub proof fn lemma_scene_step_is_best<T: HittableObject>(
    objs: Seq<T>,
    ray: Ray,
    t_min: int,
    c: int,
    best: Option<HitModel>,
)
    requires
        all_wf(objs),
        ray_wf(ray),
        best is Some ==> best->Some_0.0 == c,
    ensures
        scene_step(objs, ray, t_min, c, best) == nearer_hit(best, best_of(objs, ray, t_min, c)),
    decreases objs.len(),
{
    if objs.len() > 0 {
        let rest = objs.subrange(1, objs.len() as int);
        lemma_all_wf_tail(objs);
        match objs[0].hit_model(ray, t_min, c) {
            Some(m) => {
                objs[0].lemma_hit_model_in_range(ray, t_min, c);
                lemma_scene_step_is_best(rest, ray, t_min, m.0, Some(m));
                lemma_best_of_narrow(rest, ray, t_min, m.0, c);
                lemma_best_of_in_range(rest, ray, t_min, c);
            },
            None => {
                lemma_scene_step_is_best(rest, ray, t_min, c, best);
            },
        }
    }
}

/// The scene's reported hit is the nearest of its members' hits.
pub proof fn lemma_scene_model_is_best<T: HittableObject>(
    objs: Seq<T>,
    ray: Ray,
    t_min: int,
    t_max: int,
)
    requires
        all_wf(objs),
        ray_wf(ray),
    ensures
        scene_model(objs, ray, t_min, t_max) == best_of(objs, ray, t_min, t_max),
{
    lemma_scene_step_is_best(objs, ray, t_min, t_max, None::<HitModel>);
}

/// With two overlapping primitives along one ray, the reported hit parameter
/// is the nearer one, in either insertion order; when one hit is strictly
/// nearer, the full reported hit is that one, in either order.
pub proof fn lemma_closest_hit_order_independent<T: HittableObject>(
    a: T,
    b: T,
    ray: Ray,
    t_min: int,
    t_max: int,
)
    requires
        a.wf(),
        b.wf(),
        ray_wf(ray),
    ensures
        ({
            let ab = best_of(seq![a, b], ray, t_min, t_max);
            let ba = best_of(seq![b, a], ray, t_min, t_max);
            let ma = a.hit_model(ray, t_min, t_max);
            let mb = b.hit_model(ray, t_min, t_max);
            &&& (ab is Some) == (ba is Some)
            &&& ab is Some ==> ab->Some_0.0 == ba->Some_0.0
            &&& (ma is Some && mb is Some && ma->Some_0.0 < mb->Some_0.0) ==> ab == Some(
                ma->Some_0,
            ) && ba == Some(ma->Some_0)
            &&& (ma is Some && mb is Some && mb->Some_0.0 < ma->Some_0.0) ==> ab == Some(
                mb->Some_0,
            ) && ba == Some(mb->Some_0)
        }),
{
    let sab = seq![a, b];
    let sba = seq![b, a];
    assert(sab.subrange(1, 2) =~= seq![b]);
    assert(sba.subrange(1, 2) =~= seq![a]);
    assert(seq![b].subrange(1, 1) =~= Seq::<T>::empty());
    assert(seq![a].subrange(1, 1) =~= Seq::<T>::empty());
    assert(best_of(Seq::<T>::empty(), ray, t_min, t_max) is None);
    assert(best_of(seq![a], ray, t_min, t_max) == nearer_hit(
        a.hit_model(ray, t_min, t_max),
        None,
    ));
    assert(best_of(seq![b], ray, t_min, t_max) == nearer_hit(
        b.hit_model(ray, t_min, t_max),
        None,
    ));
}

impl<T: HittableObject> HitableList<T> {
    /// An empty scene.
    pub fn new() -> (r: HitableList<T>)
        ensures
            r.objects@.len() == 0,
    {
        HitableList { objects: Vec::new() }
    }

    /// Removes every member from the scene.
    pub fn clear(&mut self)
        ensures
            final(self).objects@.len() == 0,
    {
        self.objects.clear();
    }

    /// Appends a primitive to the scene.
    pub fn add(&mut self, object: T)
        ensures
            final(self).objects@ == old(self).objects@.push(object),
    {
        self.objects.push(object);
    }

    /// Tests the ray against every member over `[t_min, t_max]`, narrowing
    /// the range to the closest hit seen so far.  On a hit, fills `rec` with
    /// the nearest member hit and returns true; otherwise leaves `rec`
    /// unchanged and returns false.  The outcome does not depend on the
    /// members' order, except that of two members hit at the same parameter
    /// the later one is reported.
    pub fn hit(&self, ray: &Ray, t_min: i64, t_max: i64, rec: &mut HitRecord) -> (b: bool)
        requires
            all_wf(self.objects@),
            ray_wf(*ray),
            -T_LIMIT <= t_min,
            t_max <= T_LIMIT,
        ensures
            b == (best_of(self.objects@, *ray, t_min as int, t_max as int) is Some),
            b ==> record_matches(
                *final(rec),
                best_of(self.objects@, *ray, t_min as int, t_max as int)->Some_0,
            ),
            !b ==> *final(rec) == *old(rec),
    {
        let mut temp_rec = HitRecord::default();
        let mut hit_anything = false;
        let mut closet_so_far = t_max;
        let ghost mut best: Option<HitModel> = None;
        let n = self.objects.len();
        let mut i: usize = 0;
        proof {
            assert(self.objects@.subrange(0, n as int) =~= self.objects@);
        }
        while i < n
            invariant
                0 <= i <= n,
                n == self.objects@.len(),
                all_wf(self.objects@),
                ray_wf(*ray),
                -T_LIMIT <= t_min,
                t_max <= T_LIMIT,
                closet_so_far <= t_max,
                hit_anything == (best is Some),
                best is Some ==> best->Some_0.0 == closet_so_far as int && record_matches(
                    temp_rec,
                    best->Some_0,
                ) && *rec == temp_rec,
                best is None ==> closet_so_far == t_max && *rec == *old(rec),
                scene_step(
                    self.objects@.subrange(i as int, n as int),
                    *ray,
                    t_min as int,
                    closet_so_far as int,
                    best,
                ) == scene_model(self.objects@, *ray, t_min as int, t_max as int),
            decreases n - i,
        {
            let ghost prefix = self.objects@.subrange(i as int, n as int);
            proof {
                assert(prefix[0] == self.objects@[i as int]);
                assert(prefix.subrange(1, prefix.len() as int) =~= self.objects@.subrange(
                    i + 1,
                    n as int,
                ));
                self.objects@[i as int].lemma_hit_model_in_range(
                    *ray,
                    t_min as int,
                    closet_so_far as int,
                );
            }
            let ghost old_closest = closet_so_far as int;
            let object = &self.objects[i];
            if object.hit(*ray, t_min, closet_so_far, &mut temp_rec) {
                proof {
                    best = self.objects@[i as int].hit_model(*ray, t_min as int, old_closest);
                }
                hit_anything = true;
                closet_so_far = temp_rec.t;
                *rec = temp_rec;
            }
            i += 1;
        }
        proof {
            assert(self.objects@.subrange(n as int, n as int) =~= Seq::<T>::empty());
            lemma_scene_model_is_best(self.objects@, *ray, t_min as int, t_max as int);
        }
        hit_anything
    }
}

} // verus!

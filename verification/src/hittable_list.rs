//! The composite shape: a list of shapes that answers with the closest hit.

use vstd::prelude::*;
use crate::hittable::{reports, HitRecord, Hittable};
use crate::interval::Interval;
use crate::ray::Ray;
use crate::scalar::Scalar;

verus! {

/// An ordered collection of shapes, itself a shape.
pub struct HittableList<H> {
    objects: Vec<H>,
}

/// The range in which the next shape of a list is asked: the range of the
/// search, cut off at the closest hit found so far.
pub open spec fn narrowed<M>(t: Interval, best: Option<HitRecord<M>>) -> Interval {
    Interval {
        min: t.min,
        max: match best {
            Some(rec) => rec.t,
            None => t.max,
        },
    }
}

/// Whether `best` is something that may be left after `r` was offered to the
/// shapes of `objects` one after another, each in the range that the hits
/// before it have left: the answer of the last shape that reported a hit, or
/// nothing where none did.
pub open spec fn scanned<M, H: Hittable<M>>(
    objects: Seq<H>,
    r: Ray,
    t: Interval,
    best: Option<HitRecord<M>>,
) -> bool
    decreases objects.len(),
{
    if objects.len() == 0 {
        best is None
    } else {
        exists|before: Option<HitRecord<M>>, answer: Option<HitRecord<M>>|
            {
                &&& scanned(objects.drop_last(), r, t, before)
                &&& #[trigger] reports(objects.last(), r, narrowed(t, before), answer)
                &&& best == (if answer is Some { answer } else { before })
            }
    }
}

/// Whether `shape` can report a hit of `r` at the parameter `s`.
pub open spec fn crosses<M, H: Hittable<M>>(shape: H, r: Ray, s: Scalar) -> bool {
    exists|t: Interval, rec: HitRecord<M>| #[trigger] reports(shape, r, t, Some(rec)) && rec.t == s
}

/// Whether `shape` always answers with its nearest crossing inside the range
/// it is asked for, and with nothing only where it has no crossing there.
pub open spec fn nearest_first<M, H: Hittable<M>>(shape: H, r: Ray) -> bool {
    forall|t: Interval, answer: Option<HitRecord<M>>| #[trigger]
        reports(shape, r, t, answer) ==> match answer {
            Some(rec) => forall|s: Scalar| t.surrounds(s) && crosses(shape, r, s) ==> rec.t <= s,
            None => forall|s: Scalar| t.surrounds(s) ==> !crosses(shape, r, s),
        }
}

impl<H> View for HittableList<H> {
    type V = Seq<H>;

    closed spec fn view(&self) -> Seq<H> {
        self.objects@
    }
}

impl<H> HittableList<H> {
    /// The list without shapes.
    pub fn new() -> (list: HittableList<H>)
        ensures
            list@ == Seq::<H>::empty(),
    {
        HittableList { objects: Vec::new() }
    }

    /// Puts `object` behind the shapes of the list.
    pub fn add(&mut self, object: H)
        ensures
            final(self)@ == old(self)@.push(object),
    {
        self.objects.push(object);
    }

    /// Removes every shape.
    pub fn clear(&mut self)
        ensures
            final(self)@ == Seq::<H>::empty(),
    {
        self.objects.clear();
    }

    /// Puts the shapes of `objects`, in their order, behind the shapes of the
    /// list.
    pub fn add_objects(&mut self, objects: Vec<H>)
        ensures
            final(self)@ == old(self)@ + objects@,
    {
        let mut objects = objects;
        self.objects.append(&mut objects);
    }

    /// The list that holds exactly `objects`.
    pub closed spec fn holding(objects: Vec<H>) -> Self {
        HittableList { objects }
    }

    /// The list made of a vector has the vector's shapes, in their order.
    pub proof fn lemma_holding_view(objects: Vec<H>)
        ensures
            Self::holding(objects)@ == objects@,
    {
    }

    /// The number of shapes.
    pub fn len(&self) -> (n: usize)
        ensures
            n == self@.len(),
    {
        self.objects.len()
    }

    /// The shapes, in the order in which they are asked.
    pub fn objects(&self) -> (objects: &Vec<H>)
        ensures
            objects@ == self@,
    {
        &self.objects
    }
}

impl<M, H: Hittable<M>> Hittable<M> for HittableList<H> {
    /// Offers `r` to every shape in turn, each time in what is left of `t`
    /// below the closest hit so far, and answers with the last hit reported.
    fn hit(&self, r: &Ray, t: &Interval) -> (rec: Option<HitRecord<M>>)
        ensures
            scanned(self@, *r, *t, rec),
            self@.len() == 0 ==> rec is None,
    {
        let mut best: Option<HitRecord<M>> = None;
        let mut closest: Scalar = t.max();
        let mut i: usize = 0;
        while i < self.objects.len()
            invariant
                i <= self.objects.len(),
                scanned(self@.take(i as int), *r, *t, best),
                closest == narrowed(*t, best).max,
                best is Some ==> t.surrounds(best->0.t),
            decreases self.objects.len() - i,
        {
            let answer = self.objects[i].hit(r, &Interval::new(t.min(), closest));
            proof {
                let upto = self@.take(i as int + 1);
                assert(upto.drop_last() =~= self@.take(i as int));
                assert(upto.last() == self@[i as int]);
                assert(reports(upto.last(), *r, narrowed(*t, best), answer));
            }
            match answer {
                Some(rec) => {
                    closest = rec.t();
                    best = Some(rec);
                },
                None => {},
            }
            i += 1;
        }
        proof {
            assert(self@.take(i as int) =~= self@);
        }
        best
    }
}

impl<H> Default for HittableList<H> {
    /// The list without shapes.
    fn default() -> (list: Self)
        ensures
            list@ == Seq::<H>::empty(),
    {
        HittableList { objects: Vec::new() }
    }
}

impl<H> vstd::std_specs::convert::FromSpecImpl<Vec<H>> for HittableList<H> {
    open spec fn obeys_from_spec() -> bool {
        true
    }

    open spec fn from_spec(objects: Vec<H>) -> Self {
        HittableList::holding(objects)
    }
}

impl<H> From<Vec<H>> for HittableList<H> {
    /// The list of the shapes of `objects`, in their order.
    fn from(objects: Vec<H>) -> (list: Self) {
        HittableList { objects }
    }
}

/// Whether the shape at index `i` is the one whose answer `rec` is the closest
/// crossing of `objects` with `r` inside `t`: it has reported `rec` for a range
/// cut from `t`, no shape crosses the ray inside `t` below the parameter of
/// `rec`, and none before that shape crosses it at that parameter either.
pub open spec fn closest_at<M, H: Hittable<M>>(
    objects: Seq<H>,
    r: Ray,
    t: Interval,
    i: int,
    rec: HitRecord<M>,
) -> bool {
    &&& 0 <= i < objects.len()
    &&& exists|hi: Scalar| #[trigger] reports(objects[i], r, Interval { min: t.min, max: hi }, Some(rec))
    &&& forall|j: int, s: Scalar|
        0 <= j < i && t.surrounds(s) && #[trigger] crosses(objects[j], r, s) ==> rec.t < s
    &&& forall|j: int, s: Scalar|
        i <= j < objects.len() && t.surrounds(s) && #[trigger] crosses(objects[j], r, s) ==> rec.t <= s
}

/// Whether `best` is the closest crossing that the shapes of `objects` have
/// with `r` strictly inside `t`, as reported by the first shape that has it,
/// or nothing where they have no crossing there.
pub open spec fn closest_crossing<M, H: Hittable<M>>(
    objects: Seq<H>,
    r: Ray,
    t: Interval,
    best: Option<HitRecord<M>>,
) -> bool {
    match best {
        Some(rec) => t.surrounds(rec.t) && exists|i: int| #[trigger] closest_at(objects, r, t, i, rec),
        None => forall|i: int, s: Scalar|
            0 <= i < objects.len() && t.surrounds(s) ==> !#[trigger] crosses(objects[i], r, s),
    }
}

/// A list of no shapes is never hit.
pub proof fn lemma_empty_list_is_missed<M, H: Hittable<M>>(
    list: HittableList<H>,
    r: Ray,
    t: Interval,
    rec: Option<HitRecord<M>>,
)
    requires
        list@.len() == 0,
        reports(list, r, t, rec),
    ensures
        rec is None,
{
}

/// Closest hit wins: where every shape of a list answers with its own nearest
/// crossing, a scan of the list ends with the nearest crossing of them all,
/// and of shapes that cross at the same parameter the first is heard.
pub proof fn lemma_scan_finds_closest<M, H: Hittable<M>>(
    objects: Seq<H>,
    r: Ray,
    t: Interval,
    best: Option<HitRecord<M>>,
)
    requires
        scanned(objects, r, t, best),
        forall|i: int| 0 <= i < objects.len() ==> nearest_first(#[trigger] objects[i], r),
    ensures
        closest_crossing(objects, r, t, best),
    decreases objects.len(),
{
    if objects.len() > 0 {
        let front = objects.drop_last();
        let last = objects.last();
        let n = objects.len() - 1;
        let (before, answer): (Option<HitRecord<M>>, Option<HitRecord<M>>) = choose|
            before: Option<HitRecord<M>>,
            answer: Option<HitRecord<M>>,
        |
            {
                &&& scanned(front, r, t, before)
                &&& #[trigger] reports(last, r, narrowed(t, before), answer)
                &&& best == (if answer is Some { answer } else { before })
            };
        assert forall|i: int| 0 <= i < front.len() implies nearest_first(#[trigger] front[i], r) by {
            assert(front[i] == objects[i]);
        }
        lemma_scan_finds_closest(front, r, t, before);
        let cut = narrowed(t, before);
        assert(nearest_first(last, r));
        assert(last == objects[n]);
        // What the shapes before the last cross inside `t` lies at or above the cut.
        assert forall|j: int, s: Scalar|
            0 <= j < n && t.surrounds(s) && #[trigger] crosses(objects[j], r, s) implies before is Some
            && cut.max <= s by {
            assert(front[j] == objects[j]);
            if before is Some {
                let i = choose|i: int| #[trigger] closest_at(front, r, t, i, before->0);
                assert(closest_at(front, r, t, i, before->0));
            }
        }
        match answer {
            Some(rec) => {
                assert(cut.surrounds(rec.t));
                assert(reports(objects[n], r, Interval { min: t.min, max: cut.max }, Some(rec)));
                assert forall|j: int, s: Scalar|
                    n <= j < objects.len() && t.surrounds(s) && #[trigger] crosses(
                        objects[j],
                        r,
                        s,
                    ) implies rec.t <= s by {
                    if cut.surrounds(s) {
                        assert(crosses(last, r, s));
                    }
                }
                assert(closest_at(objects, r, t, n, rec));
            },
            None => {
                match before {
                    Some(rec) => {
                        let i = choose|i: int| #[trigger] closest_at(front, r, t, i, rec);
                        assert(closest_at(front, r, t, i, rec));
                        assert(front[i] == objects[i]);
                        let hi = choose|hi: Scalar| #[trigger]
                            reports(front[i], r, Interval { min: t.min, max: hi }, Some(rec));
                        assert(reports(objects[i], r, Interval { min: t.min, max: hi }, Some(rec)));
                        assert forall|j: int, s: Scalar|
                            0 <= j < i && t.surrounds(s) && #[trigger] crosses(
                                objects[j],
                                r,
                                s,
                            ) implies rec.t < s by {
                            assert(front[j] == objects[j]);
                        }
                        assert forall|j: int, s: Scalar|
                            i <= j < objects.len() && t.surrounds(s) && #[trigger] crosses(
                                objects[j],
                                r,
                                s,
                            ) implies rec.t <= s by {
                            if j < n {
                                assert(front[j] == objects[j]);
                            } else {
                                if cut.surrounds(s) {
                                    assert(crosses(last, r, s));
                                }
                            }
                        }
                        assert(closest_at(objects, r, t, i, rec));
                    },
                    None => {
                        assert forall|j: int, s: Scalar|
                            0 <= j < objects.len() && t.surrounds(s) implies !#[trigger] crosses(
                                objects[j],
                                r,
                                s,
                            ) by {
                            if j == n {
                                assert(cut.surrounds(s));
                            }
                        }
                    },
                }
            },
        }
    }
}

/// A list is as good a shape as its members: where every shape of a list
/// answers with its own nearest crossing, so does the list, and the list
/// crosses a ray only where one of its shapes does.
pub proof fn lemma_list_is_nearest_first<M, H: Hittable<M>>(list: HittableList<H>, r: Ray)
    requires
        forall|i: int| 0 <= i < list@.len() ==> nearest_first(#[trigger] list@[i], r),
    ensures
        nearest_first(list, r),
        forall|s: Scalar|
            crosses(list, r, s) ==> exists|i: int| 0 <= i < list@.len() && #[trigger] crosses(list@[i], r, s),
{
    assert forall|s: Scalar| crosses(list, r, s) implies exists|i: int|
        0 <= i < list@.len() && #[trigger] crosses(list@[i], r, s) by {
        let (t, rec): (Interval, HitRecord<M>) = choose|t: Interval, rec: HitRecord<M>| #[trigger]
            reports(list, r, t, Some(rec)) && rec.t == s;
        lemma_scan_finds_closest(list@, r, t, Some(rec));
        let i = choose|i: int| #[trigger] closest_at(list@, r, t, i, rec);
        assert(closest_at(list@, r, t, i, rec));
        assert(crosses(list@[i], r, s));
    }
    assert forall|t: Interval, answer: Option<HitRecord<M>>| #[trigger]
        reports(list, r, t, answer) implies match answer {
        Some(rec) => forall|s: Scalar| t.surrounds(s) && crosses(list, r, s) ==> rec.t <= s,
        None => forall|s: Scalar| t.surrounds(s) ==> !crosses(list, r, s),
    } by {
        lemma_scan_finds_closest(list@, r, t, answer);
        assert forall|s: Scalar| t.surrounds(s) && crosses(list, r, s) implies match answer {
            Some(rec) => rec.t <= s,
            None => false,
        } by {
            let i = choose|i: int| 0 <= i < list@.len() && #[trigger] crosses(list@[i], r, s);
            assert(crosses(list@[i], r, s));
            if answer is Some {
                let k = choose|k: int| #[trigger] closest_at(list@, r, t, k, answer->0);
                assert(closest_at(list@, r, t, k, answer->0));
            }
        }
    }
}

} // verus!

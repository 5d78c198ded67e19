//! Search windows along a ray, the choice between the two roots of an
//! intersection, and the nearest hit among many candidates.

use crate::scalar::{lemma_constants, lemma_fields, Scalar};
use vstd::prelude::*;

verus! {

/// The smaller of two scalars; `b` when they do not compare.
pub open spec fn spec_min(a: Scalar, b: Scalar) -> Scalar {
    if a.less(b) {
        a
    } else {
        b
    }
}

/// The larger of two scalars; `b` when they do not compare.
pub open spec fn spec_max(a: Scalar, b: Scalar) -> Scalar {
    if b.less(a) {
        a
    } else {
        b
    }
}

#[verifier::when_used_as_spec(spec_min)]
pub fn min(a: Scalar, b: Scalar) -> (m: Scalar)
    ensures
        m == spec_min(a, b),
        m == a || m == b,
        !a.nan() && !b.nan() ==> m.at_most(a) && m.at_most(b),
{
    if a.lt(b) {
        a
    } else {
        b
    }
}

#[verifier::when_used_as_spec(spec_max)]
pub fn max(a: Scalar, b: Scalar) -> (m: Scalar)
    ensures
        m == spec_max(a, b),
        m == a || m == b,
        !a.nan() && !b.nan() ==> a.at_most(m) && b.at_most(m),
{
    if a.gt(b) {
        a
    } else {
        b
    }
}

/// A window on the ray parameter.
#[derive(Clone, Copy, Debug, PartialEq, Eq, Structural)]
pub struct Interval {
    pub min: Scalar,
    pub max: Scalar,
}

impl Interval {
    /// Strictly inside: `min < x < max`.
    pub open spec fn spec_surrounds(self, x: Scalar) -> bool {
        self.min.less(x) && x.less(self.max)
    }

    /// Between the two ends, whichever of them is the smaller, ends included.
    pub open spec fn spec_contains(self, x: Scalar) -> bool {
        spec_min(self.min, self.max).at_most(x) && x.at_most(spec_max(self.min, self.max))
    }

    /// The window with its upper end brought down to `max`.
    pub open spec fn cut(self, max: Scalar) -> Interval {
        Interval { min: self.min, max }
    }

    pub fn new(min: Scalar, max: Scalar) -> (t: Interval)
        ensures
            t.min == min,
            t.max == max,
    {
        Interval { min, max }
    }

    /// From plus infinity down to minus infinity: no scalar lies strictly inside.
    pub fn empty() -> (t: Interval)
        ensures
            t.min == Scalar::infinity(),
            t.max == Scalar::neg_infinity(),
            forall|x: Scalar| !t.spec_surrounds(x),
    {
        let t = Interval { min: Scalar::infinity(), max: Scalar::neg_infinity() };
        proof {
            lemma_constants();
            assert forall|x: Scalar| !t.spec_surrounds(x) by {
                lemma_fields(x.bits);
            }
        }
        t
    }

    /// From minus infinity up to plus infinity: every finite scalar lies strictly inside.
    pub fn universe() -> (t: Interval)
        ensures
            t.min == Scalar::neg_infinity(),
            t.max == Scalar::infinity(),
            forall|x: Scalar| x.finite() ==> t.spec_surrounds(x),
    {
        let t = Interval { min: Scalar::neg_infinity(), max: Scalar::infinity() };
        proof {
            lemma_constants();
            assert forall|x: Scalar| x.finite() implies t.spec_surrounds(x) by {
                lemma_fields(x.bits);
            }
        }
        t
    }

    pub fn contains(&self, x: Scalar) -> (r: bool)
        ensures
            r == self.spec_contains(x),
    {
        min(self.min, self.max).le(x) && x.le(max(self.min, self.max))
    }

    pub fn surrounds(&self, x: Scalar) -> (r: bool)
        ensures
            r == self.spec_surrounds(x),
    {
        self.min.lt(x) && x.lt(self.max)
    }
}

/// Whatever lies strictly inside a window is a finite number, whatever the
/// ends of the window are.
pub proof fn lemma_surrounded_is_finite(t: Interval, x: Scalar)
    requires
        t.spec_surrounds(x),
    ensures
        x.finite(),
{
    lemma_fields(x.bits);
    lemma_fields(t.min.bits);
    lemma_fields(t.max.bits);
}

/// What solving the intersection quadratic left: its discriminant and the two
/// ray parameters `(h - sqrt(d)) / a` and `(h + sqrt(d)) / a`.
#[derive(Clone, Copy, Debug, PartialEq, Eq, Structural)]
pub struct Roots {
    pub discriminant: Scalar,
    pub near: Scalar,
    pub far: Scalar,
}

impl Roots {
    /// The roots come in order wherever both are numbers.
    pub open spec fn ordered(self) -> bool {
        !self.near.nan() && !self.far.nan() ==> self.near.at_most(self.far)
    }

    /// The ray parameter of the hit within `t`: nothing under a negative
    /// discriminant, else the near root if it lies strictly inside `t`, else
    /// the far root if that one does.
    pub open spec fn spec_pick(self, t: Interval) -> Option<Scalar> {
        if self.discriminant.less(Scalar::zero()) {
            None
        } else if t.spec_surrounds(self.near) {
            Some(self.near)
        } else if t.spec_surrounds(self.far) {
            Some(self.far)
        } else {
            None
        }
    }

    pub fn new(discriminant: Scalar, near: Scalar, far: Scalar) -> (r: Roots)
        ensures
            r.discriminant == discriminant,
            r.near == near,
            r.far == far,
    {
        Roots { discriminant, near, far }
    }

    pub fn pick(&self, t: &Interval) -> (r: Option<Scalar>)
        ensures
            r == self.spec_pick(*t),
            r is Some ==> t.spec_surrounds(r->0) && r->0.finite() && !self.discriminant.less(
                Scalar::zero(),
            ),
    {
        proof {
            if t.spec_surrounds(self.near) {
                lemma_surrounded_is_finite(*t, self.near);
            }
            if t.spec_surrounds(self.far) {
                lemma_surrounded_is_finite(*t, self.far);
            }
        }
        if self.discriminant.lt(Scalar::zero()) {
            None
        } else if t.surrounds(self.near) {
            Some(self.near)
        } else if t.surrounds(self.far) {
            Some(self.far)
        } else {
            None
        }
    }
}

/// Whether a ray strikes a surface from outside: `facing`, the dot product of
/// its direction with the outward normal, is below zero.
pub fn front_face(facing: Scalar) -> (r: bool)
    ensures
        r == facing.less(Scalar::zero()),
{
    facing.lt(Scalar::zero())
}

/// Nearest-hit narrowing in progress: the window that the next candidate is
/// asked in, and the candidate that gave the closest hit so far.
#[derive(Clone, Copy, Debug, PartialEq, Eq, Structural)]
pub struct Narrowing {
    pub window: Interval,
    pub best: Option<usize>,
}

impl Narrowing {
    pub open spec fn spec_new(t: Interval) -> Narrowing {
        Narrowing { window: t, best: None }
    }

    /// A hit takes the place of the one before it and becomes the upper end
    /// of the window; a miss changes nothing.
    pub open spec fn spec_offer(self, index: usize, hit: Option<Scalar>) -> Narrowing {
        match hit {
            Some(x) => Narrowing { window: self.window.cut(x), best: Some(index) },
            None => self,
        }
    }

    /// The candidate that won and the ray parameter of its hit.
    pub open spec fn spec_found(self) -> Option<(usize, Scalar)> {
        match self.best {
            Some(i) => Some((i, self.window.max)),
            None => None,
        }
    }

    /// Nothing asked yet: the whole window, no hit.
    pub fn new(t: Interval) -> (n: Narrowing)
        ensures
            n == Narrowing::spec_new(t),
    {
        Narrowing { window: t, best: None }
    }

    /// Takes in what candidate `index` answered when asked within `window`.
    pub fn offer(&mut self, index: usize, hit: Option<Scalar>)
        ensures
            *final(self) == old(self).spec_offer(index, hit),
    {
        match hit {
            Some(x) => {
                self.window = Interval::new(self.window.min, x);
                self.best = Some(index);
            },
            None => {},
        }
    }

    pub fn found(&self) -> (r: Option<(usize, Scalar)>)
        ensures
            r == self.spec_found(),
    {
        match self.best {
            Some(i) => Some((i, self.window.max)),
            None => None,
        }
    }
}

/// Nearest-hit narrowing over `all`: the candidates are asked in turn, each
/// within the window that the ones before it left.
pub open spec fn narrowed(t: Interval, all: Seq<Roots>) -> Narrowing
    decreases all.len(),
{
    if all.len() == 0 {
        Narrowing::spec_new(t)
    } else {
        let before = narrowed(t, all.drop_last());
        before.spec_offer((all.len() - 1) as usize, all.last().spec_pick(before.window))
    }
}

/// Narrowing that goes on from `start` over the candidates of `all`.
pub open spec fn resumed(start: Narrowing, all: Seq<Roots>) -> Narrowing
    decreases all.len(),
{
    if all.len() == 0 {
        start
    } else {
        let before = resumed(start, all.drop_last());
        before.spec_offer((all.len() - 1) as usize, all.last().spec_pick(before.window))
    }
}

/// Two searches that have the same hit: they leave the same window, and
/// both or neither name a candidate.
pub open spec fn agree(a: Narrowing, b: Narrowing) -> bool {
    a.window == b.window && (a.best is Some <==> b.best is Some)
}

/// The ray parameter alone of what a search found.
pub open spec fn hit_of(found: Option<(usize, Scalar)>) -> Option<Scalar> {
    match found {
        Some((_, x)) => Some(x),
        None => None,
    }
}

/// Candidate `i` hits at `x` within `t`, no candidate hits nearer, and none
/// before it hits as near.
pub open spec fn is_nearest(t: Interval, all: Seq<Roots>, i: int, x: Scalar) -> bool {
    &&& 0 <= i < all.len()
    &&& all[i].spec_pick(t) == Some(x)
    &&& forall|j: int|
        0 <= j < all.len() ==> match (#[trigger] all[j]).spec_pick(t) {
            Some(y) => if j < i {
                x.less(y)
            } else {
                x.at_most(y)
            },
            None => true,
        }
}

/// The index and ray parameter of the nearest hit within `t`, or `None`
/// where no candidate hits.
pub fn closest(t: &Interval, all: &Vec<Roots>) -> (r: Option<(usize, Scalar)>)
    ensures
        r == narrowed(*t, all@).spec_found(),
        match r {
            Some((i, x)) => i < all.len() && t.spec_surrounds(x) && x.finite(),
            None => true,
        },
        (forall|j: int| 0 <= j < all@.len() ==> (#[trigger] all@[j]).ordered()) ==> match r {
            Some((i, x)) => is_nearest(*t, all@, i as int, x),
            None => forall|j: int|
                0 <= j < all@.len() ==> (#[trigger] all@[j]).spec_pick(*t) is None,
        },
{
    let mut search = Narrowing::new(*t);
    let mut i: usize = 0;
    assert(all@.take(0) =~= Seq::empty());
    while i < all.len()
        invariant
            i <= all.len(),
            search == narrowed(*t, all@.take(i as int)),
            search.window.min == t.min,
            match search.best {
                Some(k) => k < i && t.spec_surrounds(search.window.max),
                None => search.window == *t,
            },
        decreases all.len() - i,
    {
        proof {
            assert(all@.take(i + 1).drop_last() =~= all@.take(i as int));
            assert(all@.take(i + 1).last() == all@[i as int]);
        }
        let hit = all[i].pick(&search.window);
        search.offer(i, hit);
        i = i + 1;
    }
    assert(all@.take(all.len() as int) =~= all@);
    proof {
        if search.best is Some {
            lemma_surrounded_is_finite(*t, search.window.max);
        }
        if forall|j: int| 0 <= j < all@.len() ==> (#[trigger] all@[j]).ordered() {
            lemma_narrowing_finds_nearest(*t, all@);
        }
    }
    search.found()
}

/// Within a window cut down to `closest`, ordered roots give the hit they
/// give within the whole window if that hit is nearer than `closest`, and
/// none otherwise.
pub proof fn lemma_pick_in_shrunk_window(r: Roots, t: Interval, closest: Scalar)
    requires
        r.ordered(),
        t.spec_surrounds(closest),
    ensures
        r.spec_pick(t.cut(closest)) == match r.spec_pick(t) {
            Some(y) => if y.less(closest) {
                Some(y)
            } else {
                None
            },
            None => None,
        },
{
}

/// What narrowing has found after any number of candidates lies strictly
/// inside the window it began with, and narrowing never moves the lower end.
pub proof fn lemma_narrowed_stays_inside(t: Interval, all: Seq<Roots>)
    requires
        all.len() <= usize::MAX,
    ensures
        narrowed(t, all).window.min == t.min,
        match narrowed(t, all).best {
            Some(i) => i < all.len() && t.spec_surrounds(narrowed(t, all).window.max),
            None => narrowed(t, all).window == t,
        },
    decreases all.len(),
{
    if all.len() > 0 {
        lemma_narrowed_stays_inside(t, all.drop_last());
    }
}

/// Narrowing returns the nearest hit: the candidate it names hits within
/// the window where asked alone, no candidate asked alone hits nearer and none
/// before it as near; and where it names none, no candidate hits.
pub proof fn lemma_narrowing_finds_nearest(t: Interval, all: Seq<Roots>)
    requires
        all.len() <= usize::MAX,
        forall|j: int| 0 <= j < all.len() ==> (#[trigger] all[j]).ordered(),
    ensures
        match narrowed(t, all).spec_found() {
            Some((i, x)) => is_nearest(t, all, i as int, x),
            None => forall|j: int| 0 <= j < all.len() ==> (#[trigger] all[j]).spec_pick(t) is None,
        },
    decreases all.len(),
{
    if all.len() > 0 {
        let front = all.drop_last();
        let last = all.last();
        let n = all.len() - 1;
        lemma_narrowing_finds_nearest(t, front);
        lemma_narrowed_stays_inside(t, front);
        assert(forall|j: int| 0 <= j < n ==> front[j] == all[j]);
        match narrowed(t, front).spec_found() {
            Some((k, c)) => {
                lemma_pick_in_shrunk_window(last, t, c);
                match narrowed(t, all).spec_found() {
                    Some((i, x)) => {
                        assert forall|j: int| 0 <= j < all.len() implies match (
                        #[trigger] all[j]).spec_pick(t) {
                            Some(y) => if j < i {
                                x.less(y)
                            } else {
                                x.at_most(y)
                            },
                            None => true,
                        } by {
                            if j < n {
                                assert(front[j] == all[j]);
                            }
                        }
                    },
                    None => {},
                }
            },
            None => {
                assert forall|j: int| 0 <= j < n implies (#[trigger] all[j]).spec_pick(t)
                    is None by {
                    assert(front[j] == all[j]);
                }
            },
        }
    }
}

/// What lies strictly inside a window lies between its ends, and a window
/// whose ends are numbers holds the same scalars when it is turned around.
pub proof fn lemma_contains_laws(t: Interval, x: Scalar)
    ensures
        t.spec_surrounds(x) ==> t.spec_contains(x),
        !t.min.nan() && !t.max.nan() ==> t.spec_contains(x) == (Interval {
            min: t.max,
            max: t.min,
        }).spec_contains(x),
{
}

/// The nearest hit does not depend on the order of the candidates: two
/// lists of ordered roots that hold the same candidates hit at the same ray
/// parameter, or both hit nothing.
pub proof fn lemma_nearest_ignores_order(t: Interval, a: Seq<Roots>, b: Seq<Roots>)
    requires
        a.len() <= usize::MAX,
        b.len() <= usize::MAX,
        forall|i: int| 0 <= i < a.len() ==> (#[trigger] a[i]).ordered() && b.contains(a[i]),
        forall|j: int| 0 <= j < b.len() ==> (#[trigger] b[j]).ordered() && a.contains(b[j]),
    ensures
        match (narrowed(t, a).spec_found(), narrowed(t, b).spec_found()) {
            (Some((_, x)), Some((_, y))) => x.same(y),
            (None, None) => true,
            _ => false,
        },
{
    lemma_narrowing_finds_nearest(t, a);
    lemma_narrowing_finds_nearest(t, b);
    match narrowed(t, a).spec_found() {
        Some((i, x)) => {
            lemma_surrounded_is_finite(t, x);
            assert(b.contains(a[i as int]));
            let j = choose|j: int| 0 <= j < b.len() && b[j] == a[i as int];
            assert(b[j].spec_pick(t) == Some(x));
            match narrowed(t, b).spec_found() {
                Some((k, y)) => {
                    lemma_surrounded_is_finite(t, y);
                    assert(a.contains(b[k as int]));
                    let l = choose|l: int| 0 <= l < a.len() && a[l] == b[k as int];
                    assert(a[l].spec_pick(t) == Some(y));
                },
                None => {},
            }
        },
        None => {
            match narrowed(t, b).spec_found() {
                Some((k, y)) => {
                    assert(a.contains(b[k as int]));
                    let l = choose|l: int| 0 <= l < a.len() && a[l] == b[k as int];
                    assert(a[l].spec_pick(t) == Some(y));
                },
                None => {},
            }
        },
    }
}

/// Narrowing from the start is narrowing that goes on from nothing.
pub proof fn lemma_narrowed_is_resumed(t: Interval, all: Seq<Roots>)
    ensures
        narrowed(t, all) == resumed(Narrowing::spec_new(t), all),
    decreases all.len(),
{
    if all.len() > 0 {
        lemma_narrowed_is_resumed(t, all.drop_last());
    }
}

/// Searches that agree go on agreeing.
pub proof fn lemma_resumed_agrees(a: Narrowing, b: Narrowing, all: Seq<Roots>)
    requires
        agree(a, b),
    ensures
        agree(resumed(a, all), resumed(b, all)),
    decreases all.len(),
{
    if all.len() > 0 {
        lemma_resumed_agrees(a, b, all.drop_last());
    }
}

/// Narrowing over two lists, one after the other, finds what narrowing over
/// the first and going on over the second finds.
pub proof fn lemma_resumed_appends(start: Narrowing, a: Seq<Roots>, b: Seq<Roots>)
    ensures
        agree(resumed(start, a + b), resumed(resumed(start, a), b)),
    decreases b.len(),
{
    if b.len() == 0 {
        assert(a + b =~= a);
    } else {
        assert((a + b).drop_last() =~= a + b.drop_last());
        assert((a + b).last() == b.last());
        lemma_resumed_appends(start, a, b.drop_last());
    }
}

/// A list asked as one candidate answers for its members: going on over the
/// members of `inner` finds what is found when `inner` is narrowed by itself,
/// within the window that is left, and its hit is offered.
pub proof fn lemma_list_is_one_candidate(start: Narrowing, inner: Seq<Roots>, index: usize)
    ensures
        agree(
            resumed(start, inner),
            start.spec_offer(index, hit_of(narrowed(start.window, inner).spec_found())),
        ),
{
    lemma_list_runs_alike(start, inner);
}

/// Going on over `inner` and narrowing `inner` by itself within the window
/// that is left move the window alike.
proof fn lemma_list_runs_alike(start: Narrowing, inner: Seq<Roots>)
    ensures
        narrowed(start.window, inner).best is None ==> resumed(start, inner) == start
            && narrowed(start.window, inner).window == start.window,
        narrowed(start.window, inner).best is Some ==> resumed(start, inner).best is Some
            && resumed(start, inner).window == narrowed(start.window, inner).window
            && narrowed(start.window, inner).window.min == start.window.min,
    decreases inner.len(),
{
    if inner.len() > 0 {
        lemma_list_runs_alike(start, inner.drop_last());
    }
}

/// A list inside a list changes nothing about the hit: narrowing over the
/// members of `a`, of `inner` and of `b` in one row finds what is found by
/// narrowing over `a`, then asking `inner` as one candidate, then going on
/// over `b`.
pub proof fn lemma_list_in_list(t: Interval, a: Seq<Roots>, inner: Seq<Roots>, b: Seq<Roots>)
    ensures
        agree(
            narrowed(t, a + inner + b),
            resumed(
                narrowed(t, a).spec_offer(
                    a.len() as usize,
                    hit_of(narrowed(narrowed(t, a).window, inner).spec_found()),
                ),
                b,
            ),
        ),
{
    let fresh = Narrowing::spec_new(t);
    let after_a = narrowed(t, a);
    let asked = after_a.spec_offer(
        a.len() as usize,
        hit_of(narrowed(after_a.window, inner).spec_found()),
    );
    lemma_narrowed_is_resumed(t, a + inner + b);
    lemma_narrowed_is_resumed(t, a);
    lemma_resumed_appends(fresh, a + inner, b);
    lemma_resumed_appends(fresh, a, inner);
    lemma_list_is_one_candidate(after_a, inner, a.len() as usize);
    lemma_resumed_agrees(resumed(fresh, a + inner), resumed(after_a, inner), b);
    lemma_resumed_agrees(resumed(after_a, inner), asked, b);
}

} // verus!

use vstd::prelude::*;

verus! {

/// Coordinate-wise sum of two coordinate sequences.
pub open spec fn sum_coords(a: Seq<int>, b: Seq<int>) -> Seq<int> {
    Seq::new(a.len(), |i: int| a[i] + b[i])
}

/// Every coordinate multiplied by `k`.
pub open spec fn scaled_coords(a: Seq<int>, k: int) -> Seq<int> {
    Seq::new(a.len(), |i: int| a[i] * k)
}

/// The smaller of two coordinates.
pub open spec fn low(x: int, y: int) -> int {
    if x <= y { x } else { y }
}

/// The larger of two coordinates.
pub open spec fn high(x: int, y: int) -> int {
    if x <= y { y } else { x }
}

/// `p` lies in the box spanned by the corners `a` and `b`: on every axis it is
/// between the smaller and the larger of the two corner coordinates.
pub open spec fn coords_within(p: Seq<int>, a: Seq<int>, b: Seq<int>) -> bool {
    &&& a.len() == p.len()
    &&& b.len() == p.len()
    &&& forall|i: int| 0 <= i < p.len() ==> low(a[i], b[i]) <= #[trigger] p[i] <= high(a[i], b[i])
}

/// What the tree asks of a point type: vector addition, uniform scaling and a
/// containment test against a box given by two corners in either order.
pub trait Vectorial: Sized + Copy {
    /// The point's coordinates.
    spec fn coords(self) -> Seq<int>;

    /// The coordinate-wise sum of `self` and `rhs` is representable.
    spec fn can_add(self, rhs: Self) -> bool;

    /// `self` scaled by `k` is representable.
    spec fn can_scale(self, k: i64) -> bool;

    fn add(self, rhs: Self) -> (r: Self)
        requires
            self.can_add(rhs),
        ensures
            r.coords() == sum_coords(self.coords(), rhs.coords()),
    ;

    fn scale(self, k: i64) -> (r: Self)
        requires
            self.can_scale(k),
        ensures
            r.coords() == scaled_coords(self.coords(), k as int),
    ;

    fn within(&self, area: (Self, Self)) -> (r: bool)
        ensures
            r == coords_within(self.coords(), area.0.coords(), area.1.coords()),
    ;
}

/// `p` lies in the box `area` (corners in either order).
pub open spec fn lies_within<T: Vectorial>(p: T, area: (T, T)) -> bool {
    coords_within(p.coords(), area.0.coords(), area.1.coords())
}

/// Adding a point to itself gives, coordinate by coordinate, the point scaled by two.
pub proof fn lemma_add_self_is_scale_two<T: Vectorial>(p: T)
    ensures
        sum_coords(p.coords(), p.coords()) == scaled_coords(p.coords(), 2),
{
    assert(sum_coords(p.coords(), p.coords()) =~= scaled_coords(p.coords(), 2));
}

/// Containment does not depend on the order in which the two corners of a
/// region are given.
pub proof fn lemma_within_corner_order<T: Vectorial>(p: T, lo: T, hi: T)
    ensures
        lies_within(p, (lo, hi)) == lies_within(p, (hi, lo)),
{
    let (c, a, b) = (p.coords(), lo.coords(), hi.coords());
    if coords_within(c, a, b) {
        assert forall|i: int| 0 <= i < c.len() implies low(b[i], a[i]) <= #[trigger] c[i] <= high(
            b[i],
            a[i],
        ) by {
            assert(low(a[i], b[i]) <= c[i] <= high(a[i], b[i]));
        }
    }
    if coords_within(c, b, a) {
        assert forall|i: int| 0 <= i < c.len() implies low(a[i], b[i]) <= #[trigger] c[i] <= high(
            a[i],
            b[i],
        ) by {
            assert(low(b[i], a[i]) <= c[i] <= high(b[i], a[i]));
        }
    }
}

/// A point one of whose coordinates lies strictly outside the region's
/// interval on that axis is not within the region.
pub proof fn lemma_outside_on_one_axis<T: Vectorial>(p: T, lo: T, hi: T, i: int)
    requires
        0 <= i < p.coords().len(),
        i < lo.coords().len(),
        i < hi.coords().len(),
        p.coords()[i] < low(lo.coords()[i], hi.coords()[i]) || p.coords()[i] > high(
            lo.coords()[i],
            hi.coords()[i],
        ),
    ensures
        !lies_within(p, (lo, hi)),
{
}

/// A point with `N` integer coordinates.
#[derive(Clone, Copy, Debug)]
pub struct DefaultVector<const N: usize>(pub [i64; N]);

impl<const N: usize> DefaultVector<N> {
    /// Coordinates as mathematical integers.
    pub open spec fn view_coords(self) -> Seq<int> {
        Seq::new(N as nat, |i: int| self.0[i] as int)
    }
}

impl<const N: usize> Vectorial for DefaultVector<N> {
    open spec fn coords(self) -> Seq<int> {
        self.view_coords()
    }

    open spec fn can_add(self, rhs: Self) -> bool {
        forall|i: int|
            0 <= i < N ==> i64::MIN <= #[trigger] self.0[i] + rhs.0[i] <= i64::MAX
    }

    open spec fn can_scale(self, k: i64) -> bool {
        forall|i: int| 0 <= i < N ==> i64::MIN <= #[trigger] self.0[i] * k <= i64::MAX
    }

    fn add(self, rhs: Self) -> (r: Self) {
        let mut out = self.0;
        let mut i: usize = 0;
        while i < N
            invariant
                i <= N,
                self.can_add(rhs),
                forall|j: int| 0 <= j < i ==> out[j] == self.0[j] + rhs.0[j],
            decreases N - i,
        {
            assert(i64::MIN <= self.0[i as int] + rhs.0[i as int] <= i64::MAX);
            out[i] = self.0[i] + rhs.0[i];
            i = i + 1;
        }
        let r = DefaultVector(out);
        assert(r.coords() =~= sum_coords(self.coords(), rhs.coords()));
        r
    }

    fn scale(self, k: i64) -> (r: Self) {
        let mut out = self.0;
        let mut i: usize = 0;
        while i < N
            invariant
                i <= N,
                self.can_scale(k),
                forall|j: int| 0 <= j < i ==> out[j] == self.0[j] * k,
            decreases N - i,
        {
            assert(i64::MIN <= self.0[i as int] * k <= i64::MAX);
            out[i] = self.0[i] * k;
            i = i + 1;
        }
        let r = DefaultVector(out);
        assert(r.coords() =~= scaled_coords(self.coords(), k as int));
        r
    }

    fn within(&self, area: (Self, Self)) -> (r: bool) {
        let mut i: usize = 0;
        while i < N
            invariant
                i <= N,
                forall|j: int|
                    0 <= j < i ==> low(area.0.0[j] as int, area.1.0[j] as int) <= #[trigger] self.0[j]
                        <= high(area.0.0[j] as int, area.1.0[j] as int),
            decreases N - i,
        {
            let a = area.0.0[i];
            let b = area.1.0[i];
            let (lo, hi) = if a <= b { (a, b) } else { (b, a) };
            if !(lo <= self.0[i] && self.0[i] <= hi) {
                assert(!coords_within(self.coords(), area.0.coords(), area.1.coords())) by {
                    assert(self.coords()[i as int] == self.0[i as int]);
                }
                return false;
            }
            i = i + 1;
        }
        assert(coords_within(self.coords(), area.0.coords(), area.1.coords())) by {
            assert forall|j: int| 0 <= j < N implies low(area.0.coords()[j], area.1.coords()[j])
                <= #[trigger] self.coords()[j] <= high(area.0.coords()[j], area.1.coords()[j]) by {
                assert(self.coords()[j] == self.0[j]);
            }
        }
        true
    }
}

} // verus!

//! Intersections of a ray with the shapes of a scene, and the rule that picks
//! the visible one.
//!
//! A ray parameter `t` is carried as the bit pattern of its binary64 value
//! (`f64::to_bits`), so that it passes through unchanged. Comparisons read the
//! pattern as sign and magnitude: for two values that are not NaN, the numeric
//! order is the order of `order_of` on their patterns, and both zeros map to 0.
use vstd::prelude::*;

verus! {

/// The sign bit of a binary64 pattern.
pub const SIGN_BIT: u64 = 0x8000_0000_0000_0000;

/// The pattern of positive infinity; a larger magnitude is a NaN.
pub const INFINITY_BITS: u64 = 0x7ff0_0000_0000_0000;

/// Exponent and fraction of a binary64 pattern, without its sign.
pub open spec fn magnitude(bits: u64) -> int {
    if bits >= SIGN_BIT {
        bits - SIGN_BIT
    } else {
        bits as int
    }
}

/// Whether the pattern encodes a NaN.
pub open spec fn nan_bits(bits: u64) -> bool {
    magnitude(bits) > INFINITY_BITS
}

/// The place of a binary64 value on the number line: its magnitude, negated
/// when the sign bit is set.
pub open spec fn order_of(bits: u64) -> int {
    if bits >= SIGN_BIT {
        -magnitude(bits)
    } else {
        magnitude(bits)
    }
}

/// `a < b` on the binary64 values with patterns `a` and `b`.
pub open spec fn below(a: u64, b: u64) -> bool {
    !nan_bits(a) && !nan_bits(b) && order_of(a) < order_of(b)
}

/// `a == b` on the binary64 values with patterns `a` and `b`.
pub open spec fn same_value(a: u64, b: u64) -> bool {
    !nan_bits(a) && !nan_bits(b) && order_of(a) == order_of(b)
}

/// `t >= 0.0` on the binary64 value with pattern `t`.
pub open spec fn nonnegative(t: u64) -> bool {
    !nan_bits(t) && order_of(t) >= 0
}

/// The signed key whose integer order is the numeric order of the value.
pub fn order_key(bits: u64) -> (r: i64)
    ensures
        r == order_of(bits),
{
    if bits >= SIGN_BIT {
        -((bits - SIGN_BIT) as i64)
    } else {
        bits as i64
    }
}

/// Whether the pattern encodes a NaN.
pub fn is_nan(bits: u64) -> (r: bool)
    ensures
        r == nan_bits(bits),
{
    let m = if bits >= SIGN_BIT {
        bits - SIGN_BIT
    } else {
        bits
    };
    m > INFINITY_BITS
}

/// `t >= 0.0` on the value with pattern `t`.
pub fn is_nonnegative(t: u64) -> (r: bool)
    ensures
        r == nonnegative(t),
{
    !is_nan(t) && order_key(t) >= 0
}

/// `a < b` on the values with patterns `a` and `b`.
pub fn less_than(a: u64, b: u64) -> (r: bool)
    ensures
        r == below(a, b),
{
    !is_nan(a) && !is_nan(b) && order_key(a) < order_key(b)
}

/// One crossing of a ray with a shape: the ray parameter `t` (as a binary64
/// pattern) and the handle of the shape, its index in the scene's list.
#[derive(Clone, Copy, Debug)]
pub struct Intersection {
    t: u64,
    object: usize,
}

impl Intersection {
    pub closed spec fn spec_t(&self) -> u64 {
        self.t
    }

    pub closed spec fn spec_object(&self) -> usize {
        self.object
    }

    pub fn new(t: u64, object: usize) -> (r: Intersection)
        ensures
            r.spec_t() == t,
            r.spec_object() == object,
    {
        Intersection { t, object }
    }

    #[verifier::when_used_as_spec(spec_t)]
    pub fn t(&self) -> (r: u64)
        ensures
            r == self.spec_t(),
    {
        self.t
    }

    #[verifier::when_used_as_spec(spec_object)]
    pub fn object(&self) -> (r: usize)
        ensures
            r == self.spec_object(),
    {
        self.object
    }
}

/// Two intersections are equal when their parameters are equal as numbers
/// and they name the same shape.
impl PartialEq for Intersection {
    fn eq(&self, o: &Intersection) -> (r: bool) {
        !is_nan(self.t) && !is_nan(o.t) && order_key(self.t) == order_key(o.t) && self.object
            == o.object
    }
}

impl vstd::std_specs::cmp::PartialEqSpecImpl for Intersection {
    open spec fn obeys_eq_spec() -> bool {
        true
    }

    open spec fn eq_spec(&self, o: &Intersection) -> bool {
        same_value(self.spec_t(), o.spec_t()) && self.spec_object() == o.spec_object()
    }
}

/// Key of the `i`-th entry of `s`.
pub open spec fn key_at(s: Seq<Intersection>, i: int) -> int {
    order_of(s[i].spec_t())
}

/// `s` is in ascending order of `t` (a NaN sorts beyond the infinity of its
/// sign).
pub open spec fn is_sorted(s: Seq<Intersection>) -> bool {
    forall|i: int, j: int| 0 <= i < j < s.len() ==> key_at(s, i) <= key_at(s, j)
}

/// `i` is the first entry of `s` with a non-negative `t`.
pub open spec fn is_first_hit(s: Seq<Intersection>, i: int) -> bool {
    &&& 0 <= i < s.len()
    &&& nonnegative(s[i].spec_t())
    &&& forall|j: int| 0 <= j < i ==> !nonnegative(#[trigger] s[j].spec_t())
}

/// Every entry of `s` lies behind the ray's origin (or is NaN).
pub open spec fn no_hit(s: Seq<Intersection>) -> bool {
    forall|i: int| 0 <= i < s.len() ==> !nonnegative(#[trigger] s[i].spec_t())
}

/// An ordered list of intersections.
pub struct Intersections {
    xs: Vec<Intersection>,
}

impl View for Intersections {
    type V = Seq<Intersection>;

    closed spec fn view(&self) -> Seq<Intersection> {
        self.xs@
    }
}

impl Intersections {
    pub fn new() -> (r: Intersections)
        ensures
            r@ == Seq::<Intersection>::empty(),
    {
        Intersections { xs: Vec::new() }
    }

    pub fn from(xs: Vec<Intersection>) -> (r: Intersections)
        ensures
            r@ == xs@,
    {
        Intersections { xs }
    }

    pub fn len(&self) -> (r: usize)
        ensures
            r == self@.len(),
    {
        self.xs.len()
    }

    pub fn is_empty(&self) -> (r: bool)
        ensures
            r == (self@.len() == 0),
    {
        self.xs.len() == 0
    }

    /// The `i`-th intersection.
    pub fn get(&self, i: usize) -> (r: &Intersection)
        requires
            i < self@.len(),
        ensures
            *r == self@[i as int],
    {
        &self.xs[i]
    }

    /// Moves the entries of `other` to the end of this list.
    pub fn append(&mut self, other: Intersections)
        ensures
            final(self)@ == old(self)@ + other@,
    {
        let mut o = other.xs;
        self.xs.append(&mut o);
    }

    /// Puts the list in ascending order of `t`. Entries with equal `t` may
    /// come out in any order.
    pub fn sort(self) -> (r: Intersections)
        ensures
            r@.to_multiset() == self@.to_multiset(),
            is_sorted(r@),
    {
        let mut xs = self.xs;
        let n = xs.len();
        let ghost orig = xs@;
        for i in 0..n
            invariant
                n == xs@.len(),
                xs@.to_multiset() == orig.to_multiset(),
                forall|a: int, b: int| 0 <= a < b < i ==> key_at(xs@, a) <= key_at(xs@, b),
        {
            let mut j = i;
            while j > 0 && order_key(xs[j - 1].t) > order_key(xs[j].t)
                invariant
                    n == xs@.len(),
                    0 <= j <= i < n,
                    xs@.to_multiset() == orig.to_multiset(),
                    forall|a: int, b: int|
                        0 <= a < b <= i && a != j && b != j ==> key_at(xs@, a) <= key_at(xs@, b),
                    forall|b: int| j < b <= i ==> key_at(xs@, j as int) <= key_at(xs@, b),
                decreases j,
            {
                let lo = xs[j - 1];
                let hi = xs[j];
                let ghost s0 = xs@;
                xs[j - 1] = hi;
                xs[j] = lo;
                proof {
                    let s1 = s0.update(j - 1, hi);
                    broadcast use vstd::multiset::group_multiset_axioms;
                    vstd::seq_lib::to_multiset_update(s0, j - 1, hi);
                    vstd::seq_lib::to_multiset_update(s1, j as int, lo);
                    assert(s1[j as int] == hi);
                    assert(s0[j - 1] == lo && s0[j as int] == hi);
                    vstd::seq_lib::to_multiset_contains(s0, lo);
                    vstd::seq_lib::to_multiset_contains(s0, hi);
                    assert(xs@ == s1.update(j as int, lo));
                    assert(xs@.to_multiset() =~= s0.to_multiset());
                    assert forall|a: int, b: int|
                        0 <= a < b <= i && a != j - 1 && b != j - 1 implies key_at(xs@, a)
                        <= key_at(xs@, b) by {
                        if b == j {
                            assert(key_at(s0, a) <= key_at(s0, j - 1));
                        } else if a == j {
                            assert(key_at(s0, j - 1) <= key_at(s0, b));
                        } else {
                            assert(key_at(s0, a) <= key_at(s0, b));
                        }
                    }
                    assert forall|b: int| j - 1 < b <= i implies key_at(xs@, j - 1) <= #[trigger] key_at(
                        xs@,
                        b,
                    ) by {
                        if b > j {
                            assert(key_at(s0, j as int) <= key_at(s0, b));
                        }
                    }
                }
                j = j - 1;
            }
            proof {
                assert forall|a: int, b: int| 0 <= a < b <= i implies key_at(xs@, a) <= key_at(
                    xs@,
                    b,
                ) by {
                    if b == j {
                        if a < j - 1 {
                            assert(key_at(xs@, a) <= key_at(xs@, j - 1));
                        }
                    } else if a != j {
                        assert(key_at(xs@, a) <= key_at(xs@, b));
                    }
                }
            }
        }
        Intersections { xs }
    }

    /// The visible intersection: the first entry with a non-negative `t`.
    /// On a sorted list that is the nearest one in front of the ray's origin.
    pub fn hit(&self) -> (r: Option<&Intersection>)
        ensures
            r is None <==> no_hit(self@),
            r matches Some(x) ==> exists|i: int| is_first_hit(self@, i) && *x == self@[i],
            r matches Some(x) ==> is_sorted(self@) ==> forall|j: int|
                0 <= j < self@.len() && nonnegative(#[trigger] self@[j].spec_t())
                    ==> order_of(x.spec_t()) <= order_of(self@[j].spec_t()),
    {
        let n = self.xs.len();
        let mut i: usize = 0;
        while i < n
            invariant
                n == self@.len(),
                i <= n,
                forall|j: int| 0 <= j < i ==> !nonnegative(#[trigger] self@[j].spec_t()),
            decreases n - i,
        {
            if is_nonnegative(self.xs[i].t) {
                proof {
                    assert(is_first_hit(self@, i as int));
                    if is_sorted(self@) {
                        assert forall|j: int|
                            0 <= j < self@.len() && nonnegative(#[trigger] self@[j].spec_t())
                                implies order_of(self@[i as int].spec_t()) <= order_of(
                            self@[j].spec_t(),
                        ) by {
                            if j > i {
                                assert(key_at(self@, i as int) <= key_at(self@, j));
                            }
                        }
                    }
                }
                return Some(&self.xs[i]);
            }
            i = i + 1;
        }
        None
    }

    /// Whether the visible intersection lies before `distance` along the ray:
    /// what decides that a point is in shadow.
    pub fn hit_before(&self, distance: u64) -> (r: bool)
        ensures
            r == exists|i: int| is_first_hit(self@, i) && below(#[trigger] self@[i].spec_t(), distance),
    {
        match self.hit() {
            Some(h) => less_than(h.t, distance),
            None => false,
        }
    }
}

} // verus!

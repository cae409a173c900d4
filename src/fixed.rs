use vstd::prelude::*;

verus! {

/// Number of fixed-point steps in one unit: lengths are held in millionths of a
/// unit, times in microseconds, angles in microradians.
pub const ONE: i64 = 1_000_000;

/// The value `x` held to the range of `i64`.
pub open spec fn clamp64(x: int) -> int {
    if x < i64::MIN {
        i64::MIN as int
    } else if x > i64::MAX {
        i64::MAX as int
    } else {
        x
    }
}

/// Saturating sum of two fixed-point values.
pub open spec fn sum(a: int, b: int) -> int {
    clamp64(a + b)
}

/// Saturating fixed-point product, rounded down.
pub open spec fn prod(a: int, b: int) -> int {
    clamp64((a * b) / (ONE as int))
}

/// Saturating sum of two fixed-point values.
pub fn add_sat(a: i64, b: i64) -> (r: i64)
    ensures
        r == sum(a as int, b as int),
{
    let s: i128 = a as i128 + b as i128;
    if s < i64::MIN as i128 {
        i64::MIN
    } else if s > i64::MAX as i128 {
        i64::MAX
    } else {
        s as i64
    }
}

/// Saturating difference of two fixed-point values.
pub fn sub_sat(a: i64, b: i64) -> (r: i64)
    ensures
        r == clamp64(a - b),
{
    let s: i128 = a as i128 - b as i128;
    if s < i64::MIN as i128 {
        i64::MIN
    } else if s > i64::MAX as i128 {
        i64::MAX
    } else {
        s as i64
    }
}

/// Saturating fixed-point product of `a` and `b`, rounded down.
pub fn mul_fixed(a: i64, b: i64) -> (r: i64)
    ensures
        r == prod(a as int, b as int),
{
    proof {
        assert(-0x4000_0000_0000_0000_0000_0000_0000_0000 <= (a as int) * (b as int)
            <= 0x4000_0000_0000_0000_0000_0000_0000_0000) by (nonlinear_arith)
            requires
                i64::MIN <= a <= i64::MAX,
                i64::MIN <= b <= i64::MAX,
        ;
    }
    let p: i128 = a as i128 * b as i128;
    proof {
        // the quotient fits, so the division below never fails
        assert(p / 1_000_000 <= i128::MAX && p / 1_000_000 >= i128::MIN) by (nonlinear_arith)
            requires
                i128::MIN <= p <= i128::MAX,
        ;
    }
    let q: i128 = match p.checked_div_euclid(ONE as i128) {
        Some(q) => q,
        None => 0,
    };
    if q < i64::MIN as i128 {
        i64::MIN
    } else if q > i64::MAX as i128 {
        i64::MAX
    } else {
        q as i64
    }
}

/// A point or a vector of the plane, in fixed point.
#[derive(Clone, Copy, PartialEq, Eq, Structural, Debug)]
pub struct Vec2 {
    pub x: i64,
    pub y: i64,
}

impl Vec2 {
    /// Saturating sum of two vectors.
    pub fn plus(self, o: Vec2) -> (r: Vec2)
        ensures
            r.x == sum(self.x as int, o.x as int),
            r.y == sum(self.y as int, o.y as int),
    {
        Vec2 { x: add_sat(self.x, o.x), y: add_sat(self.y, o.y) }
    }

    /// Each coordinate multiplied by the fixed-point factor `k`.
    pub fn times(self, k: i64) -> (r: Vec2)
        ensures
            r.x == prod(self.x as int, k as int),
            r.y == prod(self.y as int, k as int),
    {
        Vec2 { x: mul_fixed(self.x, k), y: mul_fixed(self.y, k) }
    }
}

/// A full turn in microradians.
pub const FULL_TURN: i64 = 6_283_185;

/// A direction of unit length, up to rounding of each coordinate.
pub open spec fn unit(d: Vec2) -> bool {
    &&& -ONE <= d.x <= ONE
    &&& -ONE <= d.y <= ONE
    &&& ONE * ONE - 2 * ONE <= d.x * d.x + d.y * d.y <= ONE * ONE + 2 * ONE
}

/// Table of unit directions at equal angular steps, starting from angle zero
/// (the `+y` axis) and turning counter-clockwise, in fixed point. It stands in
/// for sine and cosine, which are computed where the table is built.
pub struct Compass {
    pub dirs: Vec<Vec2>,
}

impl Compass {
    /// At least one direction, the first one `+y`, and each of unit length up
    /// to rounding.
    pub open spec fn wf(&self) -> bool {
        &&& 0 < self.dirs@.len() <= usize::MAX
        &&& self.dirs@[0] == Vec2 { x: 0, y: ONE }
        &&& forall|i: int| 0 <= i < self.dirs@.len() ==> #[trigger] unit(self.dirs@[i])
    }

    /// Index of the table entry for angle `orient`.
    pub open spec fn index_of(&self, orient: int) -> int {
        (orient % (FULL_TURN as int)) * self.dirs@.len() / (FULL_TURN as int)
    }

    /// Facing direction at angle `orient`.
    pub open spec fn facing_spec(&self, orient: int) -> Vec2 {
        self.dirs@[self.index_of(orient)]
    }

    /// A table from a list of directions; `None` where the list is empty,
    /// does not start with `+y`, or holds a direction that is not of unit
    /// length up to rounding.
    pub fn new(dirs: Vec<Vec2>) -> (r: Option<Compass>)
        ensures
            r.is_some() <==> (dirs@.len() > 0 && dirs@[0] == Vec2 { x: 0, y: ONE } && forall|i: int|
                0 <= i < dirs@.len() ==> #[trigger] unit(dirs@[i])),
            r.is_some() ==> r.unwrap().dirs@ == dirs@ && r.unwrap().wf(),
    {
        if dirs.len() == 0 {
            return None;
        }
        if dirs[0].x != 0 || dirs[0].y != ONE {
            return None;
        }
        let mut i: usize = 0;
        while i < dirs.len()
            invariant
                i <= dirs@.len(),
                forall|k: int| 0 <= k < i ==> #[trigger] unit(dirs@[k]),
            decreases dirs.len() - i,
        {
            let d = dirs[i];
            if d.x < -ONE || d.x > ONE || d.y < -ONE || d.y > ONE {
                assert(!unit(dirs@[i as int]));
                return None;
            }
            proof {
                assert(0 <= (d.x as int) * (d.x as int) <= 1_000_000_000_000) by (nonlinear_arith)
                    requires
                        -1_000_000 <= d.x <= 1_000_000,
                ;
                assert(0 <= (d.y as int) * (d.y as int) <= 1_000_000_000_000) by (nonlinear_arith)
                    requires
                        -1_000_000 <= d.y <= 1_000_000,
                ;
            }
            let n2: i128 = d.x as i128 * d.x as i128 + d.y as i128 * d.y as i128;
            if n2 < 999_998_000_000 || n2 > 1_000_002_000_000 {
                assert(!unit(dirs@[i as int]));
                return None;
            }
            i += 1;
        }
        Some(Compass { dirs })
    }

    /// The direction faced at angle `orient` (microradians).
    pub fn facing(&self, orient: i64) -> (d: Vec2)
        requires
            self.wf(),
        ensures
            0 <= self.index_of(orient as int) < self.dirs@.len(),
            d == self.facing_spec(orient as int),
    {
        let r = match orient.checked_rem_euclid(FULL_TURN) {
            Some(r) => r,
            None => 0,
        };
        let n = self.dirs.len();
        proof {
            let t = FULL_TURN as int;
            assert(0 <= r * n / t < n) by (nonlinear_arith)
                requires
                    0 <= r < t,
                    t > 0,
                    n > 0,
            ;
            assert(r * n <= 0x100_0000 * 0x1_0000_0000_0000_0000) by (nonlinear_arith)
                requires
                    0 <= r < 0x100_0000,
                    0 <= n <= usize::MAX,
            ;
        }
        let i = ((r as u128) * (n as u128) / (FULL_TURN as u128)) as usize;
        self.dirs[i]
    }
}

} // verus!

use vstd::prelude::*;

use crate::units::Meter;

verus! {

/// A point in the plane, with fixed-point coordinates in micrometers.
#[derive(Debug, Clone, Copy)]
pub struct Translation2d {
    x: Meter,
    y: Meter,
}

/// A point in space, with fixed-point coordinates in micrometers.
#[derive(Debug, Clone, Copy)]
pub struct Translation3d {
    x: Meter,
    y: Meter,
    z: Meter,
}

/// Are all coordinates of both points small enough that componentwise
/// sums, differences and doublings stay in range?
pub open spec fn coords2_bounded(a: Translation2d, b: Translation2d) -> bool {
    &&& i64::MIN <= a.x_base() + b.x_base() <= i64::MAX
    &&& i64::MIN <= a.y_base() + b.y_base() <= i64::MAX
    &&& i64::MIN <= a.x_base() - b.x_base() <= i64::MAX
    &&& i64::MIN <= a.y_base() - b.y_base() <= i64::MAX
}

pub open spec fn coords3_bounded(a: Translation3d, b: Translation3d) -> bool {
    &&& i64::MIN <= a.x_base() + b.x_base() <= i64::MAX
    &&& i64::MIN <= a.y_base() + b.y_base() <= i64::MAX
    &&& i64::MIN <= a.z_base() + b.z_base() <= i64::MAX
    &&& i64::MIN <= a.x_base() - b.x_base() <= i64::MAX
    &&& i64::MIN <= a.y_base() - b.y_base() <= i64::MAX
    &&& i64::MIN <= a.z_base() - b.z_base() <= i64::MAX
}

/// Truncating machine division, matching `/` on signed integers.
pub open spec fn div_trunc(a: int, b: int) -> int {
    if a >= 0 {
        a / b
    } else {
        -((-a) / b)
    }
}

impl Translation2d {
    pub closed spec fn x_base(&self) -> int {
        self.x.base()
    }

    /// The point with the given canonical coordinates.
    pub closed spec fn from_bases(x: int, y: int) -> Translation2d {
        Translation2d { x: Meter::from_base(x), y: Meter::from_base(y) }
    }

    pub closed spec fn y_base(&self) -> int {
        self.y.base()
    }

    pub fn new(x: Meter, y: Meter) -> (r: Translation2d)
        ensures
            r.x_base() == x.base(),
            r.y_base() == y.base(),
    {
        Translation2d { x, y }
    }

    /// Componentwise sum.
    pub fn plus(&self, other: &Translation2d) -> (r: Translation2d)
        requires
            coords2_bounded(*self, *other),
        ensures
            r.x_base() == self.x_base() + other.x_base(),
            r.y_base() == self.y_base() + other.y_base(),
    {
        Translation2d {
            x: Meter::new(self.x.value() + other.x.value()),
            y: Meter::new(self.y.value() + other.y.value()),
        }
    }

    /// Componentwise difference.
    pub fn minus(&self, other: &Translation2d) -> (r: Translation2d)
        requires
            coords2_bounded(*self, *other),
        ensures
            r.x_base() == self.x_base() - other.x_base(),
            r.y_base() == self.y_base() - other.y_base(),
    {
        Translation2d {
            x: Meter::new(self.x.value() - other.x.value()),
            y: Meter::new(self.y.value() - other.y.value()),
        }
    }

    /// The reflection through the origin.
    pub fn unary_minus(&self) -> (r: Translation2d)
        requires
            self.x_base() != i64::MIN,
            self.y_base() != i64::MIN,
        ensures
            r.x_base() == -self.x_base(),
            r.y_base() == -self.y_base(),
    {
        Translation2d {
            x: Meter::new(-self.x.value()),
            y: Meter::new(-self.y.value()),
        }
    }

    /// Componentwise scaling by a whole factor.
    pub fn times(&self, scalar: i64) -> (r: Translation2d)
        requires
            i64::MIN <= self.x_base() * scalar <= i64::MAX,
            i64::MIN <= self.y_base() * scalar <= i64::MAX,
        ensures
            r.x_base() == self.x_base() * scalar,
            r.y_base() == self.y_base() * scalar,
    {
        Translation2d {
            x: Meter::new(self.x.value() * scalar),
            y: Meter::new(self.y.value() * scalar),
        }
    }

    /// Componentwise truncating division by a whole factor.
    pub fn div_by(&self, scalar: i64) -> (r: Translation2d)
        requires
            scalar > 0,
            self.x_base() != i64::MIN,
            self.y_base() != i64::MIN,
        ensures
            r.x_base() == div_trunc(self.x_base(), scalar as int),
            r.y_base() == div_trunc(self.y_base(), scalar as int),
    {
        let x = self.x.value();
        let y = self.y.value();
        let xd: i64 = if x >= 0 {
            x / scalar
        } else {
            -((-x) / scalar)
        };
        let yd: i64 = if y >= 0 {
            y / scalar
        } else {
            -((-y) / scalar)
        };
        Translation2d { x: Meter::new(xd), y: Meter::new(yd) }
    }
}

impl PartialEq for Translation2d {
    fn eq(&self, other: &Translation2d) -> (r: bool) {
        self.x.value() == other.x.value() && self.y.value() == other.y.value()
    }
}

impl vstd::std_specs::cmp::PartialEqSpecImpl for Translation2d {
    open spec fn obeys_eq_spec() -> bool {
        true
    }

    open spec fn eq_spec(&self, other: &Translation2d) -> bool {
        self.x_base() == other.x_base() && self.y_base() == other.y_base()
    }
}

impl Translation3d {
    pub closed spec fn x_base(&self) -> int {
        self.x.base()
    }

    /// The point with the given canonical coordinates.
    pub closed spec fn from_bases(x: int, y: int, z: int) -> Translation3d {
        Translation3d { x: Meter::from_base(x), y: Meter::from_base(y), z: Meter::from_base(z) }
    }

    pub closed spec fn y_base(&self) -> int {
        self.y.base()
    }

    pub closed spec fn z_base(&self) -> int {
        self.z.base()
    }

    pub fn new(x: Meter, y: Meter, z: Meter) -> (r: Translation3d)
        ensures
            r.x_base() == x.base(),
            r.y_base() == y.base(),
            r.z_base() == z.base(),
    {
        Translation3d { x, y, z }
    }

    /// Componentwise sum.
    pub fn plus(&self, other: &Translation3d) -> (r: Translation3d)
        requires
            coords3_bounded(*self, *other),
        ensures
            r.x_base() == self.x_base() + other.x_base(),
            r.y_base() == self.y_base() + other.y_base(),
            r.z_base() == self.z_base() + other.z_base(),
    {
        Translation3d {
            x: Meter::new(self.x.value() + other.x.value()),
            y: Meter::new(self.y.value() + other.y.value()),
            z: Meter::new(self.z.value() + other.z.value()),
        }
    }

    /// Componentwise difference.
    pub fn minus(&self, other: &Translation3d) -> (r: Translation3d)
        requires
            coords3_bounded(*self, *other),
        ensures
            r.x_base() == self.x_base() - other.x_base(),
            r.y_base() == self.y_base() - other.y_base(),
            r.z_base() == self.z_base() - other.z_base(),
    {
        Translation3d {
            x: Meter::new(self.x.value() - other.x.value()),
            y: Meter::new(self.y.value() - other.y.value()),
            z: Meter::new(self.z.value() - other.z.value()),
        }
    }

    /// The reflection through the origin.
    pub fn unary_minus(&self) -> (r: Translation3d)
        requires
            self.x_base() != i64::MIN,
            self.y_base() != i64::MIN,
            self.z_base() != i64::MIN,
        ensures
            r.x_base() == -self.x_base(),
            r.y_base() == -self.y_base(),
            r.z_base() == -self.z_base(),
    {
        Translation3d {
            x: Meter::new(-self.x.value()),
            y: Meter::new(-self.y.value()),
            z: Meter::new(-self.z.value()),
        }
    }

    /// Componentwise scaling by a whole factor.
    pub fn times(&self, scalar: i64) -> (r: Translation3d)
        requires
            i64::MIN <= self.x_base() * scalar <= i64::MAX,
            i64::MIN <= self.y_base() * scalar <= i64::MAX,
            i64::MIN <= self.z_base() * scalar <= i64::MAX,
        ensures
            r.x_base() == self.x_base() * scalar,
            r.y_base() == self.y_base() * scalar,
            r.z_base() == self.z_base() * scalar,
    {
        Translation3d {
            x: Meter::new(self.x.value() * scalar),
            y: Meter::new(self.y.value() * scalar),
            z: Meter::new(self.z.value() * scalar),
        }
    }

    /// Componentwise truncating division by a whole factor.
    pub fn div_by(&self, scalar: i64) -> (r: Translation3d)
        requires
            scalar > 0,
            self.x_base() != i64::MIN,
            self.y_base() != i64::MIN,
            self.z_base() != i64::MIN,
        ensures
            r.x_base() == div_trunc(self.x_base(), scalar as int),
            r.y_base() == div_trunc(self.y_base(), scalar as int),
            r.z_base() == div_trunc(self.z_base(), scalar as int),
    {
        let x = self.x.value();
        let y = self.y.value();
        let z = self.z.value();
        let xd: i64 = if x >= 0 {
            x / scalar
        } else {
            -((-x) / scalar)
        };
        let yd: i64 = if y >= 0 {
            y / scalar
        } else {
            -((-y) / scalar)
        };
        let zd: i64 = if z >= 0 {
            z / scalar
        } else {
            -((-z) / scalar)
        };
        Translation3d { x: Meter::new(xd), y: Meter::new(yd), z: Meter::new(zd) }
    }
}

impl PartialEq for Translation3d {
    fn eq(&self, other: &Translation3d) -> (r: bool) {
        self.x.value() == other.x.value() && self.y.value() == other.y.value()
            && self.z.value() == other.z.value()
    }
}

impl vstd::std_specs::cmp::PartialEqSpecImpl for Translation3d {
    open spec fn obeys_eq_spec() -> bool {
        true
    }

    open spec fn eq_spec(&self, other: &Translation3d) -> bool {
        self.x_base() == other.x_base() && self.y_base() == other.y_base()
            && self.z_base() == other.z_base()
    }
}

impl Default for Translation3d {
    /// The origin.
    fn default() -> (r: Translation3d)
        ensures
            r.x_base() == 0,
            r.y_base() == 0,
            r.z_base() == 0,
    {
        Translation3d { x: Meter::new(0), y: Meter::new(0), z: Meter::new(0) }
    }
}

impl core::ops::Add<Translation2d> for Translation2d {
    type Output = Translation2d;

    fn add(self, rhs: Translation2d) -> (r: Translation2d) {
        let r = self.plus(&rhs);
        proof {
            Meter::lemma_from_base(self.x_base() + rhs.x_base());
            Meter::lemma_from_base(self.y_base() + rhs.y_base());
            Meter::lemma_eq(r.x, Meter::from_base(self.x_base() + rhs.x_base()));
            Meter::lemma_eq(r.y, Meter::from_base(self.y_base() + rhs.y_base()));
            assert(r == Translation2d::from_bases(
                self.x_base() + rhs.x_base(),
                self.y_base() + rhs.y_base(),
            ));
        }
        r
    }
}

impl vstd::std_specs::ops::AddSpecImpl<Translation2d> for Translation2d {
    open spec fn obeys_add_spec() -> bool {
        true
    }

    open spec fn add_req(self, rhs: Translation2d) -> bool {
        coords2_bounded(self, rhs)
    }

    open spec fn add_spec(self, rhs: Translation2d) -> Translation2d {
        Translation2d::from_bases(self.x_base() + rhs.x_base(), self.y_base() + rhs.y_base())
    }
}

impl core::ops::Sub<Translation2d> for Translation2d {
    type Output = Translation2d;

    fn sub(self, rhs: Translation2d) -> (r: Translation2d) {
        let r = self.minus(&rhs);
        proof {
            Meter::lemma_from_base(self.x_base() - rhs.x_base());
            Meter::lemma_from_base(self.y_base() - rhs.y_base());
            Meter::lemma_eq(r.x, Meter::from_base(self.x_base() - rhs.x_base()));
            Meter::lemma_eq(r.y, Meter::from_base(self.y_base() - rhs.y_base()));
            assert(r == Translation2d::from_bases(
                self.x_base() - rhs.x_base(),
                self.y_base() - rhs.y_base(),
            ));
        }
        r
    }
}

impl vstd::std_specs::ops::SubSpecImpl<Translation2d> for Translation2d {
    open spec fn obeys_sub_spec() -> bool {
        true
    }

    open spec fn sub_req(self, rhs: Translation2d) -> bool {
        coords2_bounded(self, rhs)
    }

    open spec fn sub_spec(self, rhs: Translation2d) -> Translation2d {
        Translation2d::from_bases(self.x_base() - rhs.x_base(), self.y_base() - rhs.y_base())
    }
}

impl core::ops::Mul<i64> for Translation2d {
    type Output = Translation2d;

    fn mul(self, rhs: i64) -> (r: Translation2d) {
        let r = self.times(rhs);
        proof {
            Meter::lemma_from_base(self.x_base() * rhs);
            Meter::lemma_from_base(self.y_base() * rhs);
            Meter::lemma_eq(r.x, Meter::from_base(self.x_base() * rhs));
            Meter::lemma_eq(r.y, Meter::from_base(self.y_base() * rhs));
            assert(r == Translation2d::from_bases(
                self.x_base() * rhs,
                self.y_base() * rhs,
            ));
        }
        r
    }
}

impl vstd::std_specs::ops::MulSpecImpl<i64> for Translation2d {
    open spec fn obeys_mul_spec() -> bool {
        true
    }

    open spec fn mul_req(self, rhs: i64) -> bool {
        &&& i64::MIN <= self.x_base() * rhs <= i64::MAX
        &&& i64::MIN <= self.y_base() * rhs <= i64::MAX
    }

    open spec fn mul_spec(self, rhs: i64) -> Translation2d {
        Translation2d::from_bases(self.x_base() * rhs, self.y_base() * rhs)
    }
}

impl core::ops::Div<i64> for Translation2d {
    type Output = Translation2d;

    fn div(self, rhs: i64) -> (r: Translation2d) {
        let r = self.div_by(rhs);
        proof {
            Meter::lemma_base_range(r.x);
            Meter::lemma_base_range(r.y);
            Meter::lemma_from_base(div_trunc(self.x_base(), rhs as int));
            Meter::lemma_from_base(div_trunc(self.y_base(), rhs as int));
            Meter::lemma_eq(r.x, Meter::from_base(div_trunc(self.x_base(), rhs as int)));
            Meter::lemma_eq(r.y, Meter::from_base(div_trunc(self.y_base(), rhs as int)));
            assert(r == Translation2d::from_bases(
                div_trunc(self.x_base(), rhs as int),
                div_trunc(self.y_base(), rhs as int),
            ));
        }
        r
    }
}

impl vstd::std_specs::ops::DivSpecImpl<i64> for Translation2d {
    open spec fn obeys_div_spec() -> bool {
        true
    }

    open spec fn div_req(self, rhs: i64) -> bool {
        rhs > 0 && self.x_base() != i64::MIN && self.y_base() != i64::MIN
    }

    open spec fn div_spec(self, rhs: i64) -> Translation2d {
        Translation2d::from_bases(div_trunc(self.x_base(), rhs as int), div_trunc(self.y_base(), rhs as int))
    }
}

impl core::ops::Add<Translation3d> for Translation3d {
    type Output = Translation3d;

    fn add(self, rhs: Translation3d) -> (r: Translation3d) {
        let r = self.plus(&rhs);
        proof {
            Meter::lemma_from_base(self.x_base() + rhs.x_base());
            Meter::lemma_from_base(self.y_base() + rhs.y_base());
            Meter::lemma_from_base(self.z_base() + rhs.z_base());
            Meter::lemma_eq(r.x, Meter::from_base(self.x_base() + rhs.x_base()));
            Meter::lemma_eq(r.y, Meter::from_base(self.y_base() + rhs.y_base()));
            Meter::lemma_eq(r.z, Meter::from_base(self.z_base() + rhs.z_base()));
            assert(r == Translation3d::from_bases(
                self.x_base() + rhs.x_base(),
                self.y_base() + rhs.y_base(),
                self.z_base() + rhs.z_base(),
            ));
        }
        r
    }
}

impl vstd::std_specs::ops::AddSpecImpl<Translation3d> for Translation3d {
    open spec fn obeys_add_spec() -> bool {
        true
    }

    open spec fn add_req(self, rhs: Translation3d) -> bool {
        coords3_bounded(self, rhs)
    }

    open spec fn add_spec(self, rhs: Translation3d) -> Translation3d {
        Translation3d::from_bases(self.x_base() + rhs.x_base(), self.y_base() + rhs.y_base(), self.z_base() + rhs.z_base())
    }
}

impl core::ops::Sub<Translation3d> for Translation3d {
    type Output = Translation3d;

    fn sub(self, rhs: Translation3d) -> (r: Translation3d) {
        let r = self.minus(&rhs);
        proof {
            Meter::lemma_from_base(self.x_base() - rhs.x_base());
            Meter::lemma_from_base(self.y_base() - rhs.y_base());
            Meter::lemma_from_base(self.z_base() - rhs.z_base());
            Meter::lemma_eq(r.x, Meter::from_base(self.x_base() - rhs.x_base()));
            Meter::lemma_eq(r.y, Meter::from_base(self.y_base() - rhs.y_base()));
            Meter::lemma_eq(r.z, Meter::from_base(self.z_base() - rhs.z_base()));
            assert(r == Translation3d::from_bases(
                self.x_base() - rhs.x_base(),
                self.y_base() - rhs.y_base(),
                self.z_base() - rhs.z_base(),
            ));
        }
        r
    }
}

impl vstd::std_specs::ops::SubSpecImpl<Translation3d> for Translation3d {
    open spec fn obeys_sub_spec() -> bool {
        true
    }

    open spec fn sub_req(self, rhs: Translation3d) -> bool {
        coords3_bounded(self, rhs)
    }

    open spec fn sub_spec(self, rhs: Translation3d) -> Translation3d {
        Translation3d::from_bases(self.x_base() - rhs.x_base(), self.y_base() - rhs.y_base(), self.z_base() - rhs.z_base())
    }
}

impl core::ops::Mul<i64> for Translation3d {
    type Output = Translation3d;

    fn mul(self, rhs: i64) -> (r: Translation3d) {
        let r = self.times(rhs);
        proof {
            Meter::lemma_from_base(self.x_base() * rhs);
            Meter::lemma_from_base(self.y_base() * rhs);
            Meter::lemma_from_base(self.z_base() * rhs);
            Meter::lemma_eq(r.x, Meter::from_base(self.x_base() * rhs));
            Meter::lemma_eq(r.y, Meter::from_base(self.y_base() * rhs));
            Meter::lemma_eq(r.z, Meter::from_base(self.z_base() * rhs));
            assert(r == Translation3d::from_bases(
                self.x_base() * rhs,
                self.y_base() * rhs,
                self.z_base() * rhs,
            ));
        }
        r
    }
}

impl vstd::std_specs::ops::MulSpecImpl<i64> for Translation3d {
    open spec fn obeys_mul_spec() -> bool {
        true
    }

    open spec fn mul_req(self, rhs: i64) -> bool {
        &&& i64::MIN <= self.x_base() * rhs <= i64::MAX
        &&& i64::MIN <= self.y_base() * rhs <= i64::MAX
        &&& i64::MIN <= self.z_base() * rhs <= i64::MAX
    }

    open spec fn mul_spec(self, rhs: i64) -> Translation3d {
        Translation3d::from_bases(self.x_base() * rhs, self.y_base() * rhs, self.z_base() * rhs)
    }
}

impl core::ops::Div<i64> for Translation3d {
    type Output = Translation3d;

    fn div(self, rhs: i64) -> (r: Translation3d) {
        let r = self.div_by(rhs);
        proof {
            Meter::lemma_base_range(r.x);
            Meter::lemma_base_range(r.y);
            Meter::lemma_base_range(r.z);
            Meter::lemma_from_base(div_trunc(self.x_base(), rhs as int));
            Meter::lemma_from_base(div_trunc(self.y_base(), rhs as int));
            Meter::lemma_from_base(div_trunc(self.z_base(), rhs as int));
            Meter::lemma_eq(r.x, Meter::from_base(div_trunc(self.x_base(), rhs as int)));
            Meter::lemma_eq(r.y, Meter::from_base(div_trunc(self.y_base(), rhs as int)));
            Meter::lemma_eq(r.z, Meter::from_base(div_trunc(self.z_base(), rhs as int)));
            assert(r == Translation3d::from_bases(
                div_trunc(self.x_base(), rhs as int),
                div_trunc(self.y_base(), rhs as int),
                div_trunc(self.z_base(), rhs as int),
            ));
        }
        r
    }
}

impl vstd::std_specs::ops::DivSpecImpl<i64> for Translation3d {
    open spec fn obeys_div_spec() -> bool {
        true
    }

    open spec fn div_req(self, rhs: i64) -> bool {
        rhs > 0 && self.x_base() != i64::MIN && self.y_base() != i64::MIN
            && self.z_base() != i64::MIN
    }

    open spec fn div_spec(self, rhs: i64) -> Translation3d {
        Translation3d::from_bases(div_trunc(self.x_base(), rhs as int), div_trunc(self.y_base(), rhs as int), div_trunc(self.z_base(), rhs as int))
    }
}

/// A planar displacement: forward, sideways, and angular movement, the
/// lengths in micrometers and the angle in microradians.
#[derive(Debug, Clone, Copy)]
pub struct Twist2d {
    dx: Meter,
    dy: Meter,
    dtheta_micro_rad: i64,
}

impl Twist2d {
    pub closed spec fn dx_base(&self) -> int {
        self.dx.base()
    }

    pub closed spec fn dy_base(&self) -> int {
        self.dy.base()
    }

    pub closed spec fn dtheta(&self) -> int {
        self.dtheta_micro_rad as int
    }

    pub fn new(dx: Meter, dy: Meter, dtheta_micro_rad: i64) -> (r: Twist2d)
        ensures
            r.dx_base() == dx.base(),
            r.dy_base() == dy.base(),
            r.dtheta() == dtheta_micro_rad as int,
    {
        Twist2d { dx, dy, dtheta_micro_rad }
    }
}

/// A spatial displacement, with per-axis lengths in micrometers and
/// per-axis rotations in microradians.
#[derive(Debug, Clone, Copy)]
pub struct Twist3d {
    dx: Meter,
    dy: Meter,
    dz: Meter,
    rx_micro_rad: i64,
    ry_micro_rad: i64,
    rz_micro_rad: i64,
}

impl Twist3d {
    pub closed spec fn dx_base(&self) -> int {
        self.dx.base()
    }

    pub closed spec fn dy_base(&self) -> int {
        self.dy.base()
    }

    pub closed spec fn dz_base(&self) -> int {
        self.dz.base()
    }

    pub fn new(
        dx: Meter,
        dy: Meter,
        dz: Meter,
        rx_micro_rad: i64,
        ry_micro_rad: i64,
        rz_micro_rad: i64,
    ) -> (r: Twist3d)
        ensures
            r.dx_base() == dx.base(),
            r.dy_base() == dy.base(),
            r.dz_base() == dz.base(),
    {
        Twist3d { dx, dy, dz, rx_micro_rad, ry_micro_rad, rz_micro_rad }
    }
}

} // verus!

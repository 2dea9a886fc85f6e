use vstd::prelude::*;

verus! {

/// Micro-feet per tenth of a micrometer scale: one meter is 3.28084 feet,
/// so lengths convert by the exact ratio 328084 / 100000.
pub const FEET_PER_METER_NUM: i64 = 328084;

pub const FEET_PER_METER_DEN: i64 = 100000;

/// The largest magnitude (in millionths of the respective unit) the
/// fixed-point conversions accept without overflowing.
pub const MAX_LENGTH_MICROS: i64 = 10_000_000_000_000;

/// Truncating division of `a * num / den` for nonnegative `den`, matching
/// machine division toward zero.
pub open spec fn scale_trunc(a: int, num: int, den: int) -> int {
    if a >= 0 {
        (a * num) / den
    } else {
        -((-a * num) / den)
    }
}

/// A length, held as a whole number of micrometers.
#[derive(Debug, Clone, Copy)]
pub struct Meter {
    micros: i64,
}

/// A length entered in feet, held canonically as micrometers so that
/// lengths in different units compare and add exactly.
#[derive(Debug, Clone, Copy)]
pub struct Feet {
    micros: i64,
}

/// Converts micrometers to micro-feet (truncating).
pub fn meter_to_feet(micros: i64) -> (r: i64)
    requires
        -MAX_LENGTH_MICROS <= micros <= MAX_LENGTH_MICROS,
    ensures
        r == scale_trunc(micros as int, FEET_PER_METER_NUM as int, FEET_PER_METER_DEN as int),
{
    if micros >= 0 {
        (micros * FEET_PER_METER_NUM) / FEET_PER_METER_DEN
    } else {
        -((-micros * FEET_PER_METER_NUM) / FEET_PER_METER_DEN)
    }
}

/// Converts micro-feet to micrometers (truncating).
pub fn feet_to_meter(feet_micros: i64) -> (r: i64)
    requires
        -MAX_LENGTH_MICROS <= feet_micros <= MAX_LENGTH_MICROS,
    ensures
        r == scale_trunc(
            feet_micros as int,
            FEET_PER_METER_DEN as int,
            FEET_PER_METER_NUM as int,
        ),
{
    if feet_micros >= 0 {
        (feet_micros * FEET_PER_METER_DEN) / FEET_PER_METER_NUM
    } else {
        -((-feet_micros * FEET_PER_METER_DEN) / FEET_PER_METER_NUM)
    }
}

impl Meter {
    /// The canonical value in micrometers.
    pub closed spec fn base(&self) -> int {
        self.micros as int
    }

    /// The length whose canonical value is `b` micrometers.
    pub closed spec fn from_base(b: int) -> Meter {
        Meter { micros: b as i64 }
    }

    /// Building from an in-range canonical value round-trips.
    pub proof fn lemma_from_base(b: int)
        requires
            i64::MIN <= b <= i64::MAX,
        ensures
            Meter::from_base(b).base() == b,
    {
    }

    /// Every canonical value fits the machine range.
    pub proof fn lemma_base_range(m: Meter)
        ensures
            i64::MIN <= m.base() <= i64::MAX,
    {
    }

    /// Lengths with the same canonical value are the same length.
    pub proof fn lemma_eq(a: Meter, b: Meter)
        requires
            a.base() == b.base(),
        ensures
            a == b,
    {
    }

    pub fn new(micros: i64) -> (r: Meter)
        ensures
            r.base() == micros as int,
    {
        Meter { micros }
    }

    /// The held length, in micrometers.
    pub fn value(&self) -> (r: i64)
        ensures
            r as int == self.base(),
    {
        self.micros
    }
}

impl Feet {
    /// The canonical value in micrometers.
    pub closed spec fn base(&self) -> int {
        self.micros as int
    }

    /// The length whose canonical value is `b` micrometers.
    pub closed spec fn from_base(b: int) -> Feet {
        Feet { micros: b as i64 }
    }

    pub fn new(feet_micros: i64) -> (r: Feet)
        requires
            -MAX_LENGTH_MICROS <= feet_micros <= MAX_LENGTH_MICROS,
        ensures
            r.base() == scale_trunc(
                feet_micros as int,
                FEET_PER_METER_DEN as int,
                FEET_PER_METER_NUM as int,
            ),
    {
        Feet { micros: feet_to_meter(feet_micros) }
    }

    /// The held length, in micro-feet (truncating).
    pub fn value(&self) -> (r: i64)
        requires
            -MAX_LENGTH_MICROS <= self.base() <= MAX_LENGTH_MICROS,
        ensures
            r as int == scale_trunc(
                self.base(),
                FEET_PER_METER_NUM as int,
                FEET_PER_METER_DEN as int,
            ),
    {
        meter_to_feet(self.micros)
    }
}

impl PartialEq for Meter {
    fn eq(&self, other: &Meter) -> (r: bool) {
        self.micros == other.micros
    }
}

impl vstd::std_specs::cmp::PartialEqSpecImpl for Meter {
    open spec fn obeys_eq_spec() -> bool {
        true
    }

    open spec fn eq_spec(&self, other: &Meter) -> bool {
        self.base() == other.base()
    }
}

impl PartialEq for Feet {
    fn eq(&self, other: &Feet) -> (r: bool) {
        self.micros == other.micros
    }
}

impl vstd::std_specs::cmp::PartialEqSpecImpl for Feet {
    open spec fn obeys_eq_spec() -> bool {
        true
    }

    open spec fn eq_spec(&self, other: &Feet) -> bool {
        self.base() == other.base()
    }
}

impl PartialEq<Meter> for Feet {
    fn eq(&self, other: &Meter) -> (r: bool) {
        self.micros == other.micros
    }
}

impl vstd::std_specs::cmp::PartialEqSpecImpl<Meter> for Feet {
    open spec fn obeys_eq_spec() -> bool {
        true
    }

    open spec fn eq_spec(&self, other: &Meter) -> bool {
        self.base() == other.base()
    }
}

impl PartialEq<Feet> for Meter {
    fn eq(&self, other: &Feet) -> (r: bool) {
        self.micros == other.micros
    }
}

impl vstd::std_specs::cmp::PartialEqSpecImpl<Feet> for Meter {
    open spec fn obeys_eq_spec() -> bool {
        true
    }

    open spec fn eq_spec(&self, other: &Feet) -> bool {
        self.base() == other.base()
    }
}

impl PartialOrd for Feet {
    fn partial_cmp(&self, other: &Feet) -> (r: Option<core::cmp::Ordering>) {
        if self.micros < other.micros {
            Some(core::cmp::Ordering::Less)
        } else if self.micros > other.micros {
            Some(core::cmp::Ordering::Greater)
        } else {
            Some(core::cmp::Ordering::Equal)
        }
    }
}

impl vstd::std_specs::cmp::PartialOrdSpecImpl for Feet {
    open spec fn obeys_partial_cmp_spec() -> bool {
        true
    }

    open spec fn partial_cmp_spec(&self, other: &Feet) -> Option<core::cmp::Ordering> {
        if self.base() < other.base() {
            Some(core::cmp::Ordering::Less)
        } else if self.base() > other.base() {
            Some(core::cmp::Ordering::Greater)
        } else {
            Some(core::cmp::Ordering::Equal)
        }
    }
}

impl core::ops::Add<Meter> for Feet {
    type Output = Feet;

    fn add(self, rhs: Meter) -> (r: Feet) {
        Feet { micros: self.micros + rhs.micros }
    }
}

impl vstd::std_specs::ops::AddSpecImpl<Meter> for Feet {
    open spec fn obeys_add_spec() -> bool {
        true
    }

    open spec fn add_req(self, rhs: Meter) -> bool {
        i64::MIN <= self.base() + rhs.base() <= i64::MAX
    }

    open spec fn add_spec(self, rhs: Meter) -> Feet {
        Feet::from_base(self.base() + rhs.base())
    }
}

impl core::ops::Add<Feet> for Meter {
    type Output = Meter;

    fn add(self, rhs: Feet) -> (r: Meter) {
        Meter { micros: self.micros + rhs.micros }
    }
}

impl vstd::std_specs::ops::AddSpecImpl<Feet> for Meter {
    open spec fn obeys_add_spec() -> bool {
        true
    }

    open spec fn add_req(self, rhs: Feet) -> bool {
        i64::MIN <= self.base() + rhs.base() <= i64::MAX
    }

    open spec fn add_spec(self, rhs: Feet) -> Meter {
        Meter::from_base(self.base() + rhs.base())
    }
}

} // verus!

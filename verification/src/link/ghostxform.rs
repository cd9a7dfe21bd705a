//! The map from the clock of this host to the clock of a session.

use crate::duration::Duration;
use vstd::prelude::*;

verus! {

/// A slope, held as the bits of a double-precision number. The arithmetic of
/// slopes is left to the caller; here they are only kept and compared.
#[derive(Clone, Copy, Debug)]
pub struct Slope {
    pub bits: u64,
}

/// The linear map that takes a host time `t` to the session time
/// `slope * t + intercept`.
#[derive(Clone, Copy, Debug)]
pub struct GhostXForm {
    pub slope: Slope,
    pub intercept: Duration,
}

impl Slope {
    /// The bits without the sign.
    pub open spec fn magnitude(self) -> int {
        self.bits as int % 0x8000_0000_0000_0000
    }

    /// Whether the bits are those of no number.
    pub open spec fn is_nan(self) -> bool {
        self.magnitude() > 0x7ff0_0000_0000_0000
    }

    /// Whether the bits are those of positive or negative zero.
    pub open spec fn is_zero(self) -> bool {
        self.magnitude() == 0
    }

    /// Whether the two slopes are equal as floating-point numbers: two zeros
    /// are equal whatever their signs, and what is no number equals nothing.
    pub open spec fn same_number(self, other: Slope) -> bool {
        &&& !self.is_nan()
        &&& !other.is_nan()
        &&& self.bits == other.bits || (self.is_zero() && other.is_zero())
    }
}

impl PartialEq for Slope {
    fn eq(&self, other: &Slope) -> (equal: bool) {
        let a: u64 = self.bits % 0x8000_0000_0000_0000;
        let b: u64 = other.bits % 0x8000_0000_0000_0000;
        a <= 0x7ff0_0000_0000_0000 && b <= 0x7ff0_0000_0000_0000 && (self.bits == other.bits || (a
            == 0 && b == 0))
    }
}

impl vstd::std_specs::cmp::PartialEqSpecImpl for Slope {
    open spec fn obeys_eq_spec() -> bool {
        true
    }

    open spec fn eq_spec(&self, other: &Slope) -> bool {
        self.same_number(*other)
    }
}

impl GhostXForm {
    /// Whether the two maps are equal as the pairs of numbers that they are.
    pub open spec fn same_map(self, other: GhostXForm) -> bool {
        self.slope.same_number(other.slope) && self.intercept == other.intercept
    }

    /// The map that stands for the lack of a measurement: everything goes to
    /// zero.
    pub open spec fn unmeasured() -> GhostXForm {
        GhostXForm { slope: Slope { bits: 0 }, intercept: Duration::of_micros(0) }
    }
}

impl PartialEq for GhostXForm {
    fn eq(&self, other: &GhostXForm) -> (equal: bool) {
        self.slope == other.slope && self.intercept == other.intercept
    }
}

impl vstd::std_specs::cmp::PartialEqSpecImpl for GhostXForm {
    open spec fn obeys_eq_spec() -> bool {
        true
    }

    open spec fn eq_spec(&self, other: &GhostXForm) -> bool {
        self.same_map(*other)
    }
}

impl Default for GhostXForm {
    fn default() -> (x_form: GhostXForm)
        ensures
            x_form == GhostXForm::unmeasured(),
    {
        GhostXForm { slope: Slope { bits: 0 }, intercept: Duration::zero() }
    }
}

/// Two maps are equal just where their intercepts are and their slopes are equal
/// numbers: the same bits, unless these are those of no number, or two zeros of
/// whatever sign.
pub proof fn law_maps_compared(a: &GhostXForm, b: &GhostXForm, equal: bool)
    requires
        call_ensures(GhostXForm::eq, (a, b), equal),
    ensures
        equal <==> {
            &&& a.intercept == b.intercept
            &&& {
                ||| a.slope.bits == b.slope.bits && (a.slope.bits <= 0x7ff0_0000_0000_0000
                    || 0x8000_0000_0000_0000 <= a.slope.bits <= 0xfff0_0000_0000_0000)
                ||| (a.slope.bits == 0 || a.slope.bits == 0x8000_0000_0000_0000) && (b.slope.bits
                    == 0 || b.slope.bits == 0x8000_0000_0000_0000)
            }
        },
{
}

/// The map that stands for the lack of a measurement takes every time to zero.
pub proof fn law_default_map(x_form: GhostXForm)
    requires
        call_ensures(GhostXForm::default, (), x_form),
    ensures
        x_form.slope.bits == 0,
        x_form.intercept.nanos() == 0,
{
    Duration::lemma_of_micros(0);
}

} // verus!

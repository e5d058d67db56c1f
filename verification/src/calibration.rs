//! Adaptive calibration state: a two-variant selector per ambiguous
//! detector (player template scale, health-bar separator style).
//!
//! A detection attempt uses the currently selected variant only; there
//! is no in-call retry. When the attempt fails the flag flips, so the
//! next call tries the other variant and the system self-corrects
//! within two ticks. The caller that shares one flag across threads
//! stores it in an atomic cell; a stale read there costs at most one
//! extra failed attempt and never invalid geometry, since the variant
//! only selects a template and a threshold.

use vstd::prelude::*;

verus! {

/// One of the two known template/threshold variants.
#[derive(Clone, Copy, Debug, PartialEq, Eq, Structural)]
pub enum CalibrationVariant {
    VariantA,
    VariantB,
}

/// The other variant.
pub open spec fn spec_flipped(v: CalibrationVariant) -> CalibrationVariant {
    match v {
        CalibrationVariant::VariantA => CalibrationVariant::VariantB,
        CalibrationVariant::VariantB => CalibrationVariant::VariantA,
    }
}

/// The variant the next attempt will use, after an attempt under `v`
/// ended with `success`.
pub open spec fn spec_after_attempt(v: CalibrationVariant, success: bool) -> CalibrationVariant {
    if success {
        v
    } else {
        spec_flipped(v)
    }
}

/// A calibration flag owned by one ambiguous detector.
#[derive(Clone, Copy, Debug, PartialEq, Eq, Structural)]
pub struct CalibrationFlag {
    selected: CalibrationVariant,
}

impl CalibrationFlag {
    pub closed spec fn spec_current(self) -> CalibrationVariant {
        self.selected
    }

    pub fn new(initial: CalibrationVariant) -> (r: CalibrationFlag)
        ensures
            r.spec_current() == initial,
    {
        CalibrationFlag { selected: initial }
    }

    /// The variant a detection attempt made now must use.
    pub fn current(&self) -> (r: CalibrationVariant)
        ensures
            r == self.spec_current(),
    {
        self.selected
    }

    /// Record the outcome of an attempt made under the currently
    /// selected variant: a failure flips the flag for future calls, a
    /// success leaves it as it is.
    pub fn record_attempt(&mut self, success: bool)
        ensures
            final(self).spec_current() == spec_after_attempt(old(self).spec_current(), success),
    {
        if !success {
            self.selected = match self.selected {
                CalibrationVariant::VariantA => CalibrationVariant::VariantB,
                CalibrationVariant::VariantB => CalibrationVariant::VariantA,
            };
        }
    }
}

/// Calibration toggling: when an attempt under some variant fails, the
/// immediately following attempt on the same flag deterministically
/// uses the other variant; a success keeps the variant. Calls on other
/// detectors do not touch this flag, each detector owning its own.
pub proof fn lemma_calibration_toggles(v: CalibrationVariant)
    ensures
        spec_after_attempt(v, false) == spec_flipped(v),
        spec_after_attempt(v, false) != v,
        spec_after_attempt(spec_after_attempt(v, false), false) == v,
        spec_after_attempt(v, true) == v,
{
}

} // verus!

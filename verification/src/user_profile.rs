//! User-profile vocabulary shared with the surrounding application. The
//! calorie-target formulas themselves are floating-point arithmetic and live
//! with the profile editor outside this library.

use vstd::prelude::*;

verus! {

#[derive(Clone, Copy, PartialEq, Eq, Structural, Debug)]
pub enum ActivityLevel {
    Sedentary,
    LightlyActive,
    ModeratelyActive,
    VeryActive,
    SuperActive,
}

#[derive(Clone, Copy, PartialEq, Eq, Structural, Debug)]
pub enum TargetCalorieCalcStrategy {
    MifflinStJeor,
    KatchMcArdle,
    HarrisBenedict,
}

#[derive(Clone, Copy, PartialEq, Eq, Structural, Debug)]
pub enum Gender {
    Male,
    Female,
}

/// The gender assumed for stored profiles that predate the gender field.
pub fn default_gender() -> (r: Gender)
    ensures
        r == Gender::Male,
{
    Gender::Male
}

} // verus!

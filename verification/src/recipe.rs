//! Potential recipes: which potential a container carries and its parameters.
//! `R` is the type of the real-valued parameters.

use vstd::prelude::*;

verus! {

/// The family of a potential.
#[derive(Clone, Copy, Debug, PartialEq, Eq, Structural)]
pub enum PotentialName {
    Kepler,
    Plummer,
    Bovy,
    CustomKepler,
    CustomPlummer,
}

/// A point mass of mass `amp`.
#[derive(Clone, Copy, Debug)]
pub struct KeplerRecipe<R> {
    pub name: PotentialName,
    pub amp: R,
}

/// A Plummer sphere of mass `amp` and scale radius `radius`.
#[derive(Clone, Copy, Debug)]
pub struct PlummerRecipe<R> {
    pub name: PotentialName,
    pub amp: R,
    pub radius: R,
}

/// The Bovy (2015) Milky Way model.
#[derive(Clone, Copy, Debug)]
pub struct BovyRecipe {
    pub name: PotentialName,
}

/// A point mass attached to a particle group, with its place in the group's
/// trajectory (`length`, `offset`, `division`, `final_time`).
#[derive(Clone, Copy, Debug)]
pub struct CustomKeplerRecipe<R> {
    pub length: usize,
    pub offset: usize,
    pub division: usize,
    pub final_time: R,
    pub amp: R,
    pub name: PotentialName,
}

/// A Plummer sphere attached to a particle group, with its place in the
/// group's trajectory (`length`, `offset`, `division`, `final_time`).
#[derive(Clone, Copy, Debug)]
pub struct CustomPlummerRecipe<R> {
    pub length: usize,
    pub offset: usize,
    pub division: usize,
    pub final_time: R,
    pub amp: R,
    pub radius: R,
    pub name: PotentialName,
}

/// A potential recipe.
#[derive(Clone, Copy, Debug)]
pub enum Recipe<R> {
    Kepler(KeplerRecipe<R>),
    Plummer(PlummerRecipe<R>),
    Bovy(BovyRecipe),
    CustomKepler(CustomKeplerRecipe<R>),
    CustomPlummer(CustomPlummerRecipe<R>),
}

impl<R> Recipe<R> {
    /// Point-mass potential of total mass `amp` (units with G = 1).
    pub fn kepler(amp: R) -> (r: Recipe<R>)
        ensures
            r == Recipe::Kepler(KeplerRecipe { name: PotentialName::Kepler, amp }),
    {
        Recipe::Kepler(KeplerRecipe { name: PotentialName::Kepler, amp })
    }

    /// Plummer sphere of total mass `amp` and scale radius `radius`.
    pub fn plummer(amp: R, radius: R) -> (r: Recipe<R>)
        ensures
            r == Recipe::Plummer(PlummerRecipe { name: PotentialName::Plummer, amp, radius }),
    {
        Recipe::Plummer(PlummerRecipe { name: PotentialName::Plummer, amp, radius })
    }

    /// The Bovy Milky Way model.
    pub fn bovy() -> (r: Recipe<R>)
        ensures
            r == Recipe::<R>::Bovy(BovyRecipe { name: PotentialName::Bovy }),
    {
        Recipe::Bovy(BovyRecipe { name: PotentialName::Bovy })
    }
}

} // verus!

//! Attaching potentials to particle groups.

use vstd::prelude::*;

use crate::recipe::{CustomKeplerRecipe, CustomPlummerRecipe, PotentialName, Recipe};

verus! {

/// The recipe that a particle group carries for the potential `potential`: a
/// Kepler or Plummer potential becomes its particle-attached counterpart with
/// the same parameters, not yet placed in a trajectory (length, offset and
/// division 0, final time `zero`); no other potential can be attached.
pub open spec fn attached<R>(potential: Recipe<R>, zero: R) -> Option<Recipe<R>> {
    match potential {
        Recipe::Kepler(p) => Some(
            Recipe::CustomKepler(
                CustomKeplerRecipe {
                    length: 0,
                    offset: 0,
                    division: 0,
                    final_time: zero,
                    amp: p.amp,
                    name: PotentialName::CustomKepler,
                },
            ),
        ),
        Recipe::Plummer(p) => Some(
            Recipe::CustomPlummer(
                CustomPlummerRecipe {
                    length: 0,
                    offset: 0,
                    division: 0,
                    final_time: zero,
                    amp: p.amp,
                    radius: p.radius,
                    name: PotentialName::CustomPlummer,
                },
            ),
        ),
        _ => None,
    }
}

/// A recipe attached to particles is not yet placed in a trajectory: its
/// length, offset and division are 0 and its final time is the given zero,
/// while the potential's mass (and, for a Plummer sphere, its radius) carry
/// over; only Kepler and Plummer potentials can be attached.
pub proof fn lemma_attached_recipe_is_unplaced<R>(potential: Recipe<R>, zero: R)
    ensures
        attached(potential, zero) is Some <==> (potential is Kepler || potential is Plummer),
        attached(potential, zero) matches Some(Recipe::CustomKepler(c)) ==> {
            &&& potential matches Recipe::Kepler(p) && c.amp == p.amp
            &&& c.final_time == zero && c.length == 0 && c.offset == 0 && c.division == 0
        },
        attached(potential, zero) matches Some(Recipe::CustomPlummer(c)) ==> {
            &&& potential matches Recipe::Plummer(p) && c.amp == p.amp && c.radius == p.radius
            &&& c.final_time == zero && c.length == 0 && c.offset == 0 && c.division == 0
        },
        potential is Kepler ==> attached(potential, zero) matches Some(Recipe::CustomKepler(_)),
        potential is Plummer ==> attached(potential, zero) matches Some(Recipe::CustomPlummer(_)),
{
}

/// The recipe of a particle group that carries `potential`, or `None` when
/// the potential cannot be attached to particles.
pub fn particle_recipe<R: Copy>(potential: Recipe<R>, zero: R) -> (r: Option<Recipe<R>>)
    ensures
        r == attached(potential, zero),
        r is Some <==> (potential is Kepler || potential is Plummer),
        potential is Kepler ==> r matches Some(Recipe::CustomKepler(_)),
        potential is Plummer ==> r matches Some(Recipe::CustomPlummer(_)),
        r matches Some(Recipe::CustomKepler(c)) ==> {
            &&& potential matches Recipe::Kepler(p) && c.amp == p.amp
            &&& c.final_time == zero
            &&& c.length == 0 && c.offset == 0 && c.division == 0
            &&& c.name == PotentialName::CustomKepler
        },
        r matches Some(Recipe::CustomPlummer(c)) ==> {
            &&& potential matches Recipe::Plummer(p) && c.amp == p.amp && c.radius == p.radius
            &&& c.final_time == zero
            &&& c.length == 0 && c.offset == 0 && c.division == 0
            &&& c.name == PotentialName::CustomPlummer
        },
{
    match potential {
        Recipe::Kepler(p) => Some(
            Recipe::CustomKepler(
                CustomKeplerRecipe {
                    length: 0,
                    offset: 0,
                    division: 0,
                    final_time: zero,
                    amp: p.amp,
                    name: PotentialName::CustomKepler,
                },
            ),
        ),
        Recipe::Plummer(p) => Some(
            Recipe::CustomPlummer(
                CustomPlummerRecipe {
                    length: 0,
                    offset: 0,
                    division: 0,
                    final_time: zero,
                    amp: p.amp,
                    radius: p.radius,
                    name: PotentialName::CustomPlummer,
                },
            ),
        ),
        _ => None,
    }
}

} // verus!

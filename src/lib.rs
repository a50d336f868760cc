//! A discrete-generation ecosystem simulation: organisms with clamped behavioural
//! traits, an energy economy, movement, photosynthesis and mutating asexual
//! reproduction. Quantities are fixed-point integers counted in millionths.
use vstd::prelude::*;

pub mod environment;
pub mod fixed;
pub mod organism;
pub mod random;
pub mod simulation;
pub mod traits;

pub use environment::{Environment, Resources};
pub use fixed::{Position, UNIT};
pub use organism::{ActionHistory, Organism, OrganismSnapshot};
pub use simulation::Simulation;
pub use traits::OrganismTraits;

verus! {

} // verus!

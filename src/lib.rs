//! A population of simulated people whose happiness is recomputed every week.
//!
//! Ownership is a tree: a `Population` owns its `Person`s, each person owns one
//! `Happiness`, and a happiness owns the `HappinessModifier`s of the current week.
//! People and modifiers live in a `KeyedStore`, an insertion-ordered sequence
//! with an index from identifier to position.
pub mod error;
pub mod happiness;
pub mod ids;
pub mod population;
pub mod store;

pub use error::SimError;
pub use happiness::{Happiness, HappinessModifier, HappinessModifierKind};
pub use ids::{HappinessModifierId, IdAllocator, PersonId};
pub use population::{GlobalState, Person, Population};
pub use store::{Keyed, KeyedStore};

//! Core logic of a recipe viewer: recipes with fixed-point quantities and
//! their text rendering, substring search over recipe names, and the page
//! navigation state machine.

pub mod names;
pub mod navigation;
pub mod quantity;
pub mod recipe;
pub mod search;

pub use navigation::{AccurateRecipe, LoadError, Message};
pub use quantity::{clamp_multiplier, scale, MAX_MULTIPLIER_PCT, MIN_MULTIPLIER_PCT};
pub use recipe::Recipe;
pub use search::search_recipe_by_name;

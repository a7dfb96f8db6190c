//! Stash inventory classification, recipe bundle generation and the cache
//! coordinator that serves them.

pub mod cache;
pub mod error;
pub mod inventory;
pub mod item;
pub mod overlay;
pub mod recipe;
pub mod session;

pub use cache::{Coordinator, ResponseFromNetwork};
pub use error::HelperError;
pub use inventory::RecipeSet;
pub use item::{item_type_from_icon, item_type_from_parts, Item, ItemType, RawItem, StashData};
pub use overlay::{calc_cell_size, get_item_rect, WindowRect};
pub use recipe::{recipe_queue, ChaosListGenerator, Tier};
pub use session::{set_account, AccountData};

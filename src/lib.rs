//! Terminal client logic for browsing an episodic media catalog: search
//! result extraction, paginated chapter listing, stream link resolution,
//! a persisted watch history and the navigation decisions of the menus.

pub mod decimal;
pub mod text;
pub mod tracker;
pub mod catalog;
pub mod menus;
pub mod player;

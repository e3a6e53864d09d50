//! Game rules of a factory-building game: grid directions, inventories,
//! recipes, belts, placement, menus, key bindings, mods and progression.

pub mod direction;
pub mod first_index;
pub mod seq_sum;
pub mod resource;
pub mod inventory;
pub mod text;
pub mod recipe;
pub mod placement;
pub mod machines;
pub mod input;
pub mod keybindings;
pub mod belt;
pub mod discovery;
pub mod build_menu;
pub mod modding;
pub mod settings;
pub mod main_menu;
pub mod tutorial;
pub mod game_state;
pub mod agriculture;
pub mod construction;
pub mod capsule;
pub mod combat;
pub mod catalog;
pub mod building;
pub mod sorted_selection;
pub mod recipe_selector;
pub mod inspect;

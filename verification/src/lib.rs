//! Inventory, shop and combat rules of the Cursed Warden game.
pub mod plugins;

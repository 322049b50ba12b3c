pub mod combat;
pub mod geometry;
pub mod grid;
pub mod inventory;
pub mod inventory_utils;
pub mod items;
pub mod metagame;
pub mod mutation;
pub mod phases;
pub mod random;
pub mod shop;
pub mod tables;
pub mod visualization;

//! Spatial memory and route planning for an agent that explores a tile grid
//! through a small moving window.
//!
//! * [`tile`] describes what a cell of the world can hold.
//! * [`pins`] are the annotations that can be set on a cell.
//! * [`enhanced_map`] remembers observed tiles and pins, and finds the cells
//!   that carry a pin.
//! * [`view`] places what the host shows at absolute positions.
//! * [`cost`] prices the traversal of a tile in energy and material.
//! * [`pathfinder`] lists the steps that leave a search state.
//! * [`route`] plans a cheapest route under both budgets.
//! * [`tracker`] counts actions towards goals.

pub mod cost;
pub mod enhanced_map;
pub mod pathfinder;
pub mod pins;
pub mod route;
pub mod tile;
pub mod tracker;
pub mod view;

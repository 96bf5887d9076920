//! A population of point-like units simulated on a fixed timestep: each tick
//! builds a spatial hash, orders the units by cell with a bitonic network,
//! derives a per-cell index table and advances every unit from its neighbours.

pub mod padding;
pub mod unit;
pub mod uniforms;
pub mod hash;
pub mod sort;
pub mod index;
pub mod timestep;
pub mod update;
pub mod pipeline;
pub mod simulation;
pub mod encode;
pub mod order;
pub mod dispatch;
pub mod identity;
pub mod spawn;

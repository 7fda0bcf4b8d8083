//! Control logic of a residential floor-heating controller: room schedules,
//! an append-only log of readings and relay states, and the decisions that
//! open room valves and switch the central stove.

pub mod cli;
pub mod clock;
pub mod controller;
pub mod error;
pub mod heating_configuration;
pub mod relay;
pub mod sampling;
pub mod scheduler;
pub mod store;
pub mod temperature_sensor;

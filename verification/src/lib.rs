//! Domain rules, request decisions and configuration resolution of the quiz
//! arena services, with their contracts proved by Verus.

pub mod text;
pub mod kernel;
pub mod greet;
pub mod registry;
pub mod telemetry;
pub mod config;
pub mod modules;

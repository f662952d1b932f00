//! A node that runs beside containers: what it watches, what it lets an agent touch, and how it
//! stays connected.

pub mod command;
pub mod config;
pub mod docker;
pub mod enroll;
pub mod env;
pub mod file_io;
pub mod gate;
pub mod heal;
pub mod json;
pub mod k8s;
pub mod monitor;
pub mod numbers;
pub mod path;
pub mod roots;
pub mod runtime;
pub mod system;
pub mod terminal;
pub mod text;
pub mod time;
pub mod wire;

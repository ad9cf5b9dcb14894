pub mod text;
pub mod strmap;
pub mod docker;
pub mod macos_vm;
pub mod runner;
pub mod runner_image;
pub mod wave;
pub mod reusable;
pub mod matrix;
pub mod workflow;
pub mod expr;
pub mod plan;
pub mod state;
pub mod events;
pub mod dtu;
pub mod workspace;
pub mod yaml;
pub mod json;
pub mod expansion;

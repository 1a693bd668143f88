//! The verified core of the RunCove desktop backend: the run log archive's
//! queue, file format, naming rules, startup sweep and page reader, the pnpm
//! workspace manifest parser, and the decisions the application's commands take.

pub mod error;
pub mod text;
pub mod archive;
pub mod models;
pub mod commands;
pub mod discovery;
pub mod pnpm_workspace;
pub mod manifest;
pub mod component_order;

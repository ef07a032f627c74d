//! The verified logic of the Veloce cluster: the decisions a worker takes about
//! jobs, resources and files, and the rules by which the console presents them.

pub mod apptainer;
pub mod assets;
pub mod bpf_filter;
pub mod cgroups;
pub mod commands;
pub mod config;
pub mod connection;
pub mod envs;
pub mod inputs;
pub mod job_flow;
pub mod job_runner;
pub mod json;
pub mod launch;
pub mod log_manager;
pub mod model;
pub mod numbers;
pub mod order;
pub mod outputs;
pub mod paths;
pub mod pieces;
pub mod pmi;
pub mod pmix;
pub mod records;
pub mod recovery;
pub mod resources;
pub mod shell;
pub mod telemetry;
pub mod terminal;
pub mod text;
pub mod web;


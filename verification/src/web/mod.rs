//! What the console shows of the cluster, and what it asks of the controller.

pub mod admin;
pub mod api;
pub mod containers;
pub mod dashboard;
pub mod format;
pub mod history;
pub mod info;
pub mod job_details;
pub mod jobs;
pub mod listing;
pub mod markdown;
pub mod nodes;
pub mod notifications;
pub mod request;
pub mod session;
pub mod statistics;
pub mod submit;
pub mod telemetry_page;
pub mod topology;

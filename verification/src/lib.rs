//! Verified core logic of the Strata SQL workbench engine.

pub mod text;
pub mod plan;
pub mod lifecycle;
pub mod config;
pub mod util;
pub mod names;
pub mod ddl;
pub mod tables;
pub mod chart;
pub mod copy;
pub mod json_infer;
pub mod json_read;
pub mod export;
pub mod external;
pub mod catalog;
pub mod profile;
pub mod functions;
pub mod remote;

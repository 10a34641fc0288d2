//! Backup Buddy: the policy model, the rules that decide which files a set of
//! backup policies covers, and the parsing and formatting that the web front
//! end relies on.

pub mod text;
pub mod ids;
pub mod models;
pub mod paths;
pub mod coverage;
pub mod report;
pub mod durations;
pub mod forms;
pub mod config;
pub mod migrations;
pub mod timetext;

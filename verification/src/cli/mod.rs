//! The decisions of the command line front end: selection of repositories,
//! clone settings, quality commands, merge request texts and plans.
pub mod clone;
pub mod select;
pub mod quality;
pub mod plan;
pub mod args;
pub mod mr;
pub mod mr_status;
pub mod status;
pub mod graph_view;
pub mod deps;
pub mod bump;
pub mod shell;
pub mod descriptions;
pub mod scope;
pub mod report;
pub mod mr_report;
pub mod plan_build;
pub mod git_commands;
pub mod template;

//! Verified core of a command-line tool that keeps yukicoder problems in a Git
//! repository: text normalisation, request bodies, settings comparison, token
//! selection and the decisions that drive pull / push / diff.

pub mod api;
pub mod body;
pub mod commands;
pub mod config;
pub mod local;
pub mod models;
pub mod text;

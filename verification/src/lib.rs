//! Verified core logic of the savhub skill registry.
pub mod error;
pub mod git_url;
pub mod text;
pub mod urls;
pub mod json;
pub mod llm_eval;
pub mod custom_selectors;
pub mod index_rules;
pub mod order;
pub mod git_ops;
pub mod model;
pub mod encoding;
pub mod github_auth;
pub mod users;
pub mod location;
pub mod sessions;
pub mod client;
pub mod policy;
pub mod jobs;
pub mod ai;
pub mod search;
pub mod bundle;
pub mod import_plan;
pub mod worker;
pub mod repo_search;
pub mod paths;
pub mod shell;
pub mod git_commands;

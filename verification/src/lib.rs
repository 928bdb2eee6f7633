pub mod text;
pub mod json_repair;
pub mod diff_engine;
pub mod dedup;
pub mod provider;
pub mod prompts;
pub mod chunking;
pub mod search;
pub mod config;
pub mod tokens;
pub mod documents;
pub mod extractors;
pub mod workspace;
pub mod tasks;
pub mod vdb;
pub mod gateway;
pub mod graph;
pub mod source_preview;
pub mod file_preview;
pub mod local_fs;
pub mod files;
pub mod review;
pub mod recovery;
pub mod health;
pub mod sandbox;
pub mod validator;
pub mod topology;
pub mod crossings;
pub mod plan_merge;
pub mod secrets;
pub mod office;
pub mod pdf;
pub mod candidates;
pub mod web_search;

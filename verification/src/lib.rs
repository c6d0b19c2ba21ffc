//! Verified core of `opz`, a helper around the 1Password CLI.

pub mod answer_laws;
pub mod bridge_laws;
pub mod cache;
pub mod cli;
pub mod cloudflare;
pub mod cloudflare_item;
pub mod cloudflare_repeat;
pub mod cloudflare_store;
pub mod command_laws;
pub mod credential_laws;
pub mod doctor;
pub mod double;
pub mod env_laws;
pub mod envfile;
pub mod environment;
pub mod failure;
pub mod file_laws;
pub mod ids;
pub mod instrumentation;
pub mod item_laws;
pub mod json;
pub mod just_laws;
pub mod launch_laws;
pub mod listing_laws;
pub mod lookup;
pub mod map;
pub mod mcp;
pub mod mcp_environment;
pub mod migration;
pub mod migration_laws;
pub mod migration_plan;
pub mod migration_run;
pub mod namespace;
pub mod op;
pub mod path_laws;
pub mod paths;
pub mod pattern;
pub mod plugin;
pub mod plugin_config;
pub mod plugin_launch;
pub mod plugin_laws;
pub mod plugin_run;
pub mod plugin_template;
pub mod process;
pub mod redaction;
pub mod rehearsal;
pub mod remote_laws;
pub mod report_laws;
pub mod repositories;
pub mod resolver;
pub mod run_laws;
pub mod sdk;
pub mod sdk_batch;
pub mod sdk_bridge;
pub mod sdk_index;
pub mod sdk_laws;
pub mod secret_laws;
pub mod secrets;
pub mod security;
pub mod seqs;
pub mod store_laws;
pub mod targets;
pub mod telemetry;
pub mod text;
pub mod text_laws;
pub mod titles;

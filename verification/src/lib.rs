//! Verified core of an agent toolkit: text utilities, path policy, sandbox
//! command lines, skill registry, memory store ranking, LLM routing with
//! circuit breakers, tool-output formatting and small parsers.

pub mod text;
pub mod rank;
pub mod memory;
pub mod router;
pub mod sandbox;
pub mod skills;
pub mod orchestrator;
pub mod tool;
pub mod mcp;
pub mod edit;
pub mod fuzzy;
pub mod mcp_client;
pub mod web_search;
pub mod security;
pub mod filesystem;
pub mod command;
pub mod cowsay;
pub mod browser;
pub mod research;
pub mod conversation;
pub mod llm;
pub mod agent;
pub mod tools;
pub mod plugin;
pub mod config;
pub mod dashboard;
pub mod schemas;

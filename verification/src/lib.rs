//! Verified core of an issue-driven development orchestrator.

pub mod text;
pub mod html_fixer;
pub mod string_map;
pub mod config;
pub mod workspace;
pub mod agent;
pub mod issue_context;
pub mod signal_handler;
pub mod sdlc;

pub mod api;
pub mod client;
pub mod conversation;
pub mod convergence;
pub mod display;
pub mod hooks;
pub mod invariants;
pub mod json;
pub mod limits;
pub mod session;
pub mod sse;
pub mod text;
pub mod tool_rules;
pub mod tools;
pub mod turn;

//! The audit trail: what is kept of tool calls, and what an operator is shown.
pub mod calls;
pub mod console;
pub mod event_laws;
pub mod events;
pub mod laws;
pub mod line;
pub mod logger;
pub mod parts;
pub mod queue;
pub mod redact;
pub mod redact_laws;
pub mod render_laws;
pub mod results;
pub mod rotation_laws;

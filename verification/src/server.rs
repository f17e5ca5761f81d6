//! Who is let in, and which sessions stay open.
pub mod admission;
pub mod laws;
pub mod listener;
pub mod sessions;
pub mod status;

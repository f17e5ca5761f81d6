//! Paths inside a project, and commands that run in it.
pub mod command;
pub mod command_laws;
pub mod files;
pub mod path_laws;
pub mod paths;
pub mod podman;
pub mod podman_laws;
pub mod shell;
pub mod writing;

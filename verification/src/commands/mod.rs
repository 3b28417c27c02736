//! The decisions behind each command; reading and writing files is left to the caller.
pub mod bisect;
pub mod filters;
pub mod get;
pub mod list;
pub mod profiles;
pub mod reset;
pub mod set;

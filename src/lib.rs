//! Named credential profiles for a DNS/CDN provider: a registry of profiles,
//! round-robin activation in ascending order of name, the text of the
//! environment export file, and the set-up and outcome of runs of the
//! provider's command-line tool.

pub mod activation;
pub mod bridge;
pub mod hook;
pub mod laws;
pub mod order;
pub mod registry;

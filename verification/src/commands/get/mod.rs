//! The logic behind the `re get` subcommands.

pub mod buckets;
pub mod comments;
pub mod custom_label_trend_report;
pub mod datasets;
pub mod emails;
pub mod integrations;
pub mod keyed_sync_states;
pub mod projects;
pub mod quota;
pub mod sources;
pub mod streams;
pub mod users;

//! Recall: the logic behind a day timeline assembled from several activity
//! sources (git, GitHub, calendar feeds, Jira, Zulip, Harvest).

pub mod auth;
pub mod clock;
pub mod git;
pub mod github;
pub mod harvest;
pub mod harvest_done;
pub mod ical;
pub mod jira;
pub mod range;
pub mod json;
pub mod settings;
pub mod sorting;
pub mod telemetry;
pub mod text;
pub mod timeline;
pub mod zulip;

//! A client for the issue and pull-request listings of the GitHub REST API,
//! and the text of the subteam reports that are drawn from them.
//!
//! The library makes no request itself. `issues::list_issues` and
//! `pulls::list_pull_requests` start a `listing::Listing`, which names the
//! request to make next and takes in what came of it, page by page, until the
//! listing is complete or has failed. Whoever holds the network makes the
//! requests. `record` and `json` decode the pages, `report` turns listings
//! into the sections of a report.

pub mod client;
pub mod error;
pub mod issues;
pub mod json;
pub mod listing;
pub mod pulls;
pub mod record;
pub mod report;
pub mod team;
pub mod text;

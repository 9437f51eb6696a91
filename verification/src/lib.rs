//! Passive and active checks for network blocking of domains and addresses.
//!
//! The passive side classifies resolved addresses against prefix tables of
//! CDN ranges and blocked networks, and domains against a blocklist keyed by
//! reversed labels. The active side decides, attempt by attempt, what a probe
//! against a fixed vantage host says about a target.

pub mod addr;
pub mod checker;
pub mod counter;
pub mod domain;
pub mod domain_set;
pub mod geoip;
pub mod lists;
pub mod prefix_table;
pub mod probe;
pub mod reports;
pub mod resolver;
pub mod target;
pub mod text;

//! Token-usage analytics: aggregation rules, account attribution and cache
//! decisions for a terminal usage dashboard.

pub mod tokens;
pub mod text;
pub mod ledger;
pub mod clients;
pub mod grouping;
pub mod group;
pub mod dates;
pub mod usage;
pub mod cache;
pub mod streaks;
pub mod profile;
pub mod loader;
pub mod aggregate;
pub mod accounts;
pub mod price;
pub mod series;
pub mod thinking;
pub mod rates;
pub mod order;
pub mod quota;
pub mod graph;
pub mod cached;
pub mod cached_daily;

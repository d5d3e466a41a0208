//! A per-account catalog of release banners with an audit trail and an
//! anomaly monitor that flags accounts acting too often in a short window.

pub mod account;
pub mod audit;
pub mod banner;
pub mod laws;
pub mod listing;
pub mod monitor;
pub mod repo;

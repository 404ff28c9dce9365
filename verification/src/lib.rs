//! Class seat ledger: verified booking, waitlist, offer and reconciliation
//! rules, signed demo cookies, contact encryption, calendar parsing and
//! operational metrics.
pub mod records;
pub mod seqs;
pub mod text;
pub mod codec;
pub mod crypto;
pub mod school;
pub mod metrics;
pub mod ids;
pub mod demo;
pub mod ical;
pub mod cookies;
pub mod api;
pub mod clock;
pub mod feeds;
pub mod jobs;
pub mod auth;
pub mod laws;
pub mod rules;
pub mod keys;



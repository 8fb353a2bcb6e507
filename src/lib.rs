//! Promotional-code ingestion and per-guild reconciliation.
//!
//! The catalog of codes and the registry of guilds live in [`config::Config`].
//! A reconciliation cycle ingests a freshly scraped batch, checks each enabled
//! guild's alert channel and role against a snapshot of the guild, disables the
//! guilds whose settings went stale, and hands out, for the others, the valid
//! codes past their cursor. Cursors move only after a confirmed delivery.
pub mod catalog;
pub mod config;
pub mod db;
pub mod error;
pub mod notify;
pub mod reconcile;
pub mod registry;
pub mod scrape;
pub mod text;

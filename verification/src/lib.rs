//! Library behind a Telegram notifier for Stockholm rental listings.

pub mod bostad;
pub mod bostad_search;
pub mod config;
pub mod notifier;
pub mod order;
pub mod qasa;
pub mod search;
pub mod telegram;
pub mod text;

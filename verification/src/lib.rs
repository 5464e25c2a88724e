//! Browsing data of a robotics competition event: team statistics,
//! match listings, screen navigation and the text that the screens show.

pub mod text;
pub mod sorting;
pub mod search;
pub mod models;
pub mod stats;
pub mod app;
pub mod input;
pub mod config;
pub mod fetch;
pub mod display;

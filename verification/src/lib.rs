pub mod text;
pub mod hex16;
pub mod raw;
pub mod ids;
pub mod remote;
pub mod legacy_remote;
pub mod remote_map;
pub mod remotes;
pub mod time;
pub mod queue;
pub mod config;
pub mod season;
pub mod history;
pub mod component;
pub mod confirm;
pub mod watch;
pub mod watch_remaining;
pub mod etag;
pub mod image;
pub mod api;
pub mod catalog;
pub mod series_db;
pub mod pending;
pub mod changes;
pub mod database;
pub mod assemble;
pub mod display;
pub mod format;
pub mod credentials;
pub mod error_info;
pub mod watched;
pub mod sync;
pub mod application;
pub mod assets;
pub mod import;
pub mod calendar;
pub mod headers;
pub mod dashboard;
pub mod search;
pub mod settings;
pub mod remove_watch;
pub mod series_actions;
pub mod pages;
pub mod episode_item;
pub mod season_info;
pub mod views;

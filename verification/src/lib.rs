//! Verified core of the TTSpotify bot's command-line tooling: reading and
//! repairing bot configs, the config editor's rules, the systemd unit it
//! writes and reads back, and the install helpers' path logic.

pub mod text;
pub mod services;
pub mod config;
pub mod paths;
pub mod service;
pub mod doctor;
pub mod editor;
pub mod admins;
pub mod config_form;
pub mod install;
pub mod postupdate;
pub mod man;
pub mod update;

//! The per-command parsers and output builders.
pub mod package;
pub mod common;
pub mod group;
pub mod user;
pub mod service;
pub mod volume;
pub mod usb;
pub mod disk;
pub mod timezone;
pub mod os;
pub mod fields;
pub mod processor;
pub mod bios;
pub mod network_adapter;
pub mod video_device;
pub mod network_interface;
pub mod bluetooth;
pub mod scheduled_job;
pub mod battery;
pub mod cinnamon_applet;
pub mod cinnamon_extension;
pub mod cinnamon_desktop;
pub mod cinnamon_actions;
pub mod environment;
pub mod memory;
pub mod provider;
pub mod process;
pub mod video_configuration;

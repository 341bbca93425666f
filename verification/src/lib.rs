//! Verified core of a tray gauge for coding-assistant usage: transcript line
//! interpretation, the event timeline with its session and weekly windows,
//! configuration resolution, the tray icon raster and the tooltip text.

pub mod clock;
pub mod config;
pub mod display;
pub mod icon;
pub mod json;
pub mod parser;
pub mod text;
pub mod timeline;

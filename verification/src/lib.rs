//! An interactive application chooser library: it discovers program
//! descriptors, filters and ranks them by usage, and decides how a selected
//! program must be launched (replacing the chooser, or detached from its
//! terminal), while persistently tracking per-program usage records.

pub mod action;
pub mod application;
pub mod applist;
pub mod config;
pub mod db;
pub mod filter_input;
pub mod highlight;
pub mod input;
pub mod icon;
pub mod keybind;
pub mod launcher;
pub mod store;
pub mod strutil;
pub mod widgets;

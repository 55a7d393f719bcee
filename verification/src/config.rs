//! The chooser's configuration: plain settings the renderer and the
//! list consult. Loading them from disk is the surrounding program's
//! business; here they are data with defaults.

use vstd::prelude::*;

use vstd::string::StringExecFns;

verus! {

/// Settings of the filter input line.
#[derive(Debug)]
pub struct InputConfig {
    pub icon: String,
    pub placeholder: String,
}

impl Default for InputConfig {
    fn default() -> (r: Self)
        ensures
            r.icon@.len() == 0,
            r.placeholder@.len() == 0,
    {
        InputConfig { icon: String::new(), placeholder: String::new() }
    }
}

/// Settings of the match counter.
#[derive(Debug)]
pub struct CounterConfig {
    pub enable: bool,
    pub bold: bool,
}

impl Default for CounterConfig {
    fn default() -> (r: Self)
        ensures
            !r.enable,
            !r.bold,
    {
        CounterConfig { enable: false, bold: false }
    }
}

/// The outer margin, in cells.
#[derive(Debug)]
pub struct MarginConfig {
    pub x: u16,
    pub y: u16,
}

impl Default for MarginConfig {
    fn default() -> (r: Self)
        ensures
            r.x == 0,
            r.y == 0,
    {
        MarginConfig { x: 0, y: 0 }
    }
}

/// How the application list is ordered.
#[derive(Clone, Copy, Debug, PartialEq, Eq, Structural)]
pub enum ApplicationListOrder {
    Alphabetical,
    MostUsed,
}

impl Default for ApplicationListOrder {
    fn default() -> (r: Self)
        ensures
            r == ApplicationListOrder::MostUsed,
    {
        ApplicationListOrder::MostUsed
    }
}

/// Settings of the application list.
#[derive(Debug)]
pub struct ApplicationListConfig {
    pub display_icons: bool,
    pub order: ApplicationListOrder,
}

impl Default for ApplicationListConfig {
    fn default() -> (r: Self)
        ensures
            !r.display_icons,
            r.order == ApplicationListOrder::MostUsed,
    {
        ApplicationListConfig { display_icons: false, order: ApplicationListOrder::MostUsed }
    }
}

/// Settings of the scrollbar.
#[derive(Debug)]
pub struct ScrollbarConfig {
    pub enable: bool,
}

impl Default for ScrollbarConfig {
    fn default() -> (r: Self)
        ensures
            !r.enable,
    {
        ScrollbarConfig { enable: false }
    }
}

/// Settings of the info line.
#[derive(Debug)]
pub struct InfoConfig {
    pub enable: bool,
}

impl Default for InfoConfig {
    fn default() -> (r: Self)
        ensures
            !r.enable,
    {
        InfoConfig { enable: false }
    }
}

/// Light or dark palette.
#[derive(Clone, Copy, Debug, PartialEq, Eq, Structural)]
pub enum ColorMode {
    Light,
    Dark,
}

impl Default for ColorMode {
    fn default() -> (r: Self)
        ensures
            r == ColorMode::Dark,
    {
        ColorMode::Dark
    }
}

/// The whole configuration.
#[derive(Debug)]
pub struct Config {
    pub input: InputConfig,
    pub counter: CounterConfig,
    pub margin: MarginConfig,
    pub application_list: ApplicationListConfig,
    pub scrollbar: ScrollbarConfig,
    pub info: InfoConfig,
    pub color_mode: ColorMode,
}

impl Default for Config {
    fn default() -> (r: Self)
        ensures
            r.color_mode == ColorMode::Dark,
            r.application_list.order == ApplicationListOrder::MostUsed,
    {
        Config {
            input: InputConfig::default(),
            counter: CounterConfig::default(),
            margin: MarginConfig::default(),
            application_list: ApplicationListConfig::default(),
            scrollbar: ScrollbarConfig::default(),
            info: InfoConfig::default(),
            color_mode: ColorMode::default(),
        }
    }
}

impl Config {
    /// Where the configuration file lives under the given home
    /// directory.
    pub fn get_full_path(home: &str) -> (r: String)
        ensures
            r@ == home@ + "/.config/spellbook/"@ + "spellbook.toml"@,
    {
        let mut path = String::from_str(home);
        path.append("/.config/spellbook/");
        path.append("spellbook.toml");
        path
    }
}

} // verus!

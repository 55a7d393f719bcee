//! The data behind the rendered widgets: what each one shows. Drawing
//! them on a terminal is the surrounding program's business.

use vstd::prelude::*;

use crate::config::Config;
use crate::input::InputState;

verus! {

/// The application list widget: the configuration it renders under and
/// the filter it highlights.
#[derive(Debug)]
pub struct ApplicationList<'a> {
    pub config: &'a Config,
    pub filter: &'a str,
}

impl<'a> ApplicationList<'a> {
    pub fn new(config: &'a Config, input: &'a InputState) -> (r: Self)
        ensures
            r.config == config,
            r.filter@ == input.filter@,
    {
        ApplicationList { config, filter: input.filter.as_str() }
    }
}

/// The match counter widget: how many applications the view shows out
/// of how many were discovered.
#[derive(Debug)]
pub struct Counter<'a> {
    pub config: &'a Config,
    pub current: usize,
    pub max: usize,
}

impl<'a> Counter<'a> {
    pub fn new(config: &'a Config, current: usize, max: usize) -> (r: Self)
        ensures
            r.config == config,
            r.current == current,
            r.max == max,
    {
        Counter { config, current, max }
    }
}

/// The input line widget.
#[derive(Debug)]
pub struct Input<'a> {
    pub config: &'a Config,
}

impl<'a> Input<'a> {
    pub fn new(config: &'a Config) -> (r: Self)
        ensures
            r.config == config,
    {
        Input { config }
    }
}

/// The info line widget.
#[derive(Debug)]
pub struct Info<'a> {
    pub config: &'a Config,
}

impl<'a> Info<'a> {
    pub fn new(config: &'a Config) -> (r: Self)
        ensures
            r.config == config,
    {
        Info { config }
    }
}

/// What the info line shows: the selected application's description,
/// or a status message.
#[derive(Debug)]
pub struct InfoState {
    pub message: Option<String>,
}

impl InfoState {
    /// Replaces the shown message.
    pub fn update_message(&mut self, message: Option<String>)
        ensures
            final(self).message == message,
    {
        self.message = message;
    }
}

impl Default for InfoState {
    fn default() -> (r: Self)
        ensures
            r.message is None,
    {
        InfoState { message: None }
    }
}

/// What the debug line shows.
#[derive(Debug)]
pub struct DebugState {
    pub message: String,
}

impl DebugState {
    /// Replaces the shown debug message.
    pub fn log(&mut self, message: String)
        ensures
            final(self).message@ == message@,
    {
        self.message = message;
    }
}

impl Default for DebugState {
    fn default() -> (r: Self)
        ensures
            r.message@.len() == 0,
    {
        DebugState { message: String::new() }
    }
}

} // verus!

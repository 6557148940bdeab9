//! The settings the service runs with.

use vstd::prelude::*;
use vstd::string::*;

verus! {

/// The settings of the service.
#[derive(Debug, PartialEq)]
pub struct Args {
    log_level: String,
    /// Web server port
    port: u16,
    /// Interval in milliseconds to read data from the devices
    read_data_interval_ms: u16,
    /// Local path that device descriptions are kept in
    config_path: String,
}

/// The mathematical form of [`Args`].
pub struct ArgsView {
    pub log_level: Seq<char>,
    pub port: u16,
    pub read_data_interval_ms: u16,
    pub config_path: Seq<char>,
}

impl View for Args {
    type V = ArgsView;

    closed spec fn view(&self) -> ArgsView {
        ArgsView {
            log_level: self.log_level@,
            port: self.port,
            read_data_interval_ms: self.read_data_interval_ms,
            config_path: self.config_path@,
        }
    }
}

impl Args {
    /// Puts the settings together from their values.
    pub fn new(log_level: String, port: u16, read_data_interval_ms: u16, config_path: String) -> (r: Self)
        ensures
            r@ == (ArgsView {
                log_level: log_level@,
                port,
                read_data_interval_ms,
                config_path: config_path@,
            }),
    {
        Args { log_level, port, read_data_interval_ms, config_path }
    }

    /// The level from which on messages are logged.
    pub fn get_log_level(&self) -> (r: &str)
        ensures
            r@ == self@.log_level,
    {
        self.log_level.as_str()
    }

    /// The port the control interface listens on.
    pub fn get_port(&self) -> (r: u16)
        ensures
            r == self@.port,
    {
        self.port
    }

    /// The time between two poll cycles, in milliseconds.
    pub fn get_read_data_interval_ms(&self) -> (r: u16)
        ensures
            r == self@.read_data_interval_ms,
    {
        self.read_data_interval_ms
    }

    /// The path that device descriptions are kept in.
    pub fn get_config_path(&self) -> (r: &str)
        ensures
            r@ == self@.config_path,
    {
        self.config_path.as_str()
    }
}

} // verus!

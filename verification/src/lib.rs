//! Target URL resolution and scan configuration for a recursive
//! web-content discovery tool.
//!
//! The crate has two halves. [`config`] layers built-in defaults, the values
//! of a configuration file and the command line into one [`config::Configuration`].
//! [`url`] derives, for every word of a wordlist, the request URLs that a scan
//! of one directory sends.
use vstd::prelude::*;

pub mod config;
pub mod handles;
pub mod headers;
pub mod text;
pub mod url;

verus! {

/// Version of the program, as it appears in the default user agent.
pub const VERSION: &'static str = "1.12.2";

/// Wordlist that is used when neither the configuration file nor the command
/// line names one.
pub const DEFAULT_WORDLIST: &'static str =
    "/usr/share/seclists/Discovery/Web-Content/raft-medium-directories.txt";

/// Name of the configuration file that is looked for in the working directory.
pub const DEFAULT_CONFIG_NAME: &'static str = "feroxbuster.toml";

} // verus!

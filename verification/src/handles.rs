//! What every part of a scan shares and only reads.
use crate::config::Configuration;
use std::sync::Arc;
use vstd::prelude::*;

verus! {

/// The shared, read-only state of a scan. It is handed out by reference
/// count; nobody owns it alone and nobody changes it.
#[derive(Debug)]
pub struct Handles {
    /// The configuration of the scan.
    pub config: Arc<Configuration>,
}

impl Handles {
    /// Handles over the given configuration.
    pub fn new(config: Arc<Configuration>) -> (r: Self)
        ensures
            r.config == config,
    {
        Handles { config }
    }

    /// Handles over the given configuration, or over the built-in defaults
    /// where none is given.
    pub fn for_testing(config: Option<Arc<Configuration>>) -> (r: Self)
        ensures
            match config {
                Some(given) => r.config == given,
                None => r.config@ == crate::config::default_view(),
            },
    {
        match config {
            Some(given) => Handles { config: given },
            None => Handles { config: Arc::new(Configuration::default()) },
        }
    }
}

} // verus!

//! What the caller asks for.

use vstd::prelude::*;

verus! {

/// The part of the options that target resolution reads.
#[derive(Clone, Debug)]
pub struct Opts {
    /// Target tokens: addresses, blocks, host names or paths of target files.
    pub addresses: Vec<String>,
    /// Name servers to ask: a path of a file that lists them, or a list
    /// separated by commas.
    pub resolver: Option<String>,
    /// What to leave out: blocks, addresses or host names.
    pub exclude_addresses: Option<Vec<String>>,
    /// Display mode, handed on with each warning.
    pub greppable: bool,
    /// Display mode, handed on with each warning.
    pub accessible: bool,
}

/// Which scripts are to run after the scan.
#[derive(Clone, Copy, Debug, PartialEq, Eq, Structural)]
pub enum ScriptsRequired {
    /// No script at all.
    Nothing,
    /// The one script that is built in.
    Default,
    /// The scripts of the user's script directory that the script
    /// configuration selects.
    Custom,
}

impl Default for Opts {
    fn default() -> (opts: Opts)
        ensures
            opts.addresses@.len() == 0,
            opts.resolver is None,
            opts.exclude_addresses is None,
            !opts.greppable,
            !opts.accessible,
    {
        Opts {
            addresses: Vec::new(),
            resolver: None,
            exclude_addresses: None,
            greppable: false,
            accessible: false,
        }
    }
}

} // verus!

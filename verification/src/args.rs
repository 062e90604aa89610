//! Options of the integration test command.

use vstd::prelude::*;

verus! {

/// What the integration test command was asked to do.
#[derive(Clone, Debug, PartialEq, Eq)]
pub struct IntegrationArgs {
    /// Run the tests against an external node.
    pub external_node: bool,
    /// Do not install or build dependencies first.
    pub no_deps: bool,
    /// Run the EVM tests too.
    pub evm: bool,
    /// Run only the tests whose names match.
    pub test_pattern: Option<String>,
}

} // verus!

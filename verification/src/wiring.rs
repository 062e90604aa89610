//! Names under which the sender of finished proofs is wired into a node.

use vstd::prelude::*;

verus! {

/// The wiring layer of the component that sends transactions to L1.
#[derive(Clone, Copy, Debug, PartialEq, Eq, Hash, Structural)]
pub struct EthTxManagerLayer;

impl EthTxManagerLayer {
    /// The name under which the layer is registered: "eth_tx_manager_layer".
    pub fn layer_name(&self) -> (name: &'static str)
        ensures
            name@ == "eth_tx_manager_layer"@,
    {
        "eth_tx_manager_layer"
    }

    /// The id of the task that the layer adds: "eth_tx_manager".
    pub fn task_id(&self) -> (id: &'static str)
        ensures
            id@ == "eth_tx_manager"@,
    {
        "eth_tx_manager"
    }
}

} // verus!

//! What a node does for each request: it reads and changes the ledger and
//! answers with a value or an error.

pub mod get;
pub mod post;
pub mod test;

use crate::db::{AccountState, Ledger};
use crate::models::config::Config;
use crate::models::primitives::Address;
use vstd::prelude::*;

verus! {

/// A node: its ledger and its settings.
pub struct NodeData {
    pub ledger: Ledger,
    pub config: Config,
}

impl NodeData {
    /// Whether the ledger is a chain and the settings allow a Merkle tree.
    pub open spec fn valid(&self) -> bool {
        self.ledger.valid() && self.config.wf()
    }

    /// A node with an empty ledger.
    pub fn new(config: Config) -> (data: Self)
        requires
            config.wf(),
        ensures
            data.valid(),
            data.config == config,
            data.ledger@.accounts == Map::<Address, AccountState>::empty(),
            data.ledger@.transactions.len() == 0,
            data.ledger@.blocks.len() == 0,
            data.ledger@.merkle_nodes.len() == 0,
    {
        NodeData { ledger: Ledger::new(), config }
    }
}

} // verus!

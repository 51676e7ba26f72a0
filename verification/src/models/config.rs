//! The settings of a node.

use crate::encoding::{parse_decimal, parsed_decimal};
use crate::models::api::NodeMode;
use crate::models::primitives::Balance;
use vstd::arithmetic::power2::is_pow2;
use vstd::prelude::*;
use vstd::string::StringExecFns;

verus! {

/// The settings of a node.
#[derive(Clone, Debug)]
pub struct Config {
    pub server_url: String,
    pub db_url: String,
    pub node_mode: NodeMode,
    pub merkle_tree_size: u64,
    pub base_reward: Balance,
    pub block_size: u64,
    pub target: u64,
}

/// What is wrong with the values of the settings, if anything is: the name of
/// the first value, in the order mode, tree size, reward, block size and
/// target, that cannot be read, and what it must be.
pub open spec fn settings_fault(
    node_mode: Seq<char>,
    merkle_tree_size: Seq<char>,
    base_reward: Seq<char>,
    block_size: Seq<char>,
    target: Seq<char>,
) -> Option<Seq<char>> {
    if node_mode != "full"@ && node_mode != "test"@ {
        Some("NODE_MODE must be full or test"@)
    } else if parsed_decimal(merkle_tree_size, u64::MAX as nat) is None {
        Some("MERKLE_TREE_SIZE must be a number"@)
    } else if parsed_decimal(base_reward, u128::MAX as nat) is None {
        Some("BASE_REWARD must be a number"@)
    } else if parsed_decimal(block_size, u64::MAX as nat) is None {
        Some("BLOCK_SIZE must be a number"@)
    } else if parsed_decimal(target, u64::MAX as nat) is None {
        Some("TARGET must be a number"@)
    } else {
        None
    }
}

impl Config {
    /// Whether a Merkle tree can be made for these settings: its size is a
    /// power of two that this machine can address.
    pub open spec fn wf(&self) -> bool {
        is_pow2(self.merkle_tree_size as int) && self.merkle_tree_size <= usize::MAX
    }

    /// Whether a Merkle tree can be made for these settings.
    pub fn allows_tree(&self) -> (allowed: bool)
        ensures
            allowed == self.wf(),
    {
        if self.merkle_tree_size == 0 || self.merkle_tree_size > usize::MAX as u64 {
            proof {
                reveal(is_pow2);
            }
            return false;
        }
        let mut rest = self.merkle_tree_size;
        while rest % 2 == 0
            invariant
                rest >= 1,
                is_pow2(rest as int) == is_pow2(self.merkle_tree_size as int),
            decreases rest,
        {
            proof {
                reveal(is_pow2);
            }
            rest = rest / 2;
        }
        proof {
            reveal(is_pow2);
        }
        rest == 1
    }

    /// Reads the settings from their values as text: the mode is `full` or
    /// `test`, and the tree size, the reward, the block size and the target
    /// are written in decimal. The first value that cannot be read is named in
    /// the error.
    pub fn parse(
        server_url: String,
        db_url: String,
        node_mode: &str,
        merkle_tree_size: &str,
        base_reward: &str,
        block_size: &str,
        target: &str,
    ) -> (parsed: Result<Config, String>)
        ensures
            match settings_fault(node_mode@, merkle_tree_size@, base_reward@, block_size@, target@) {
                Some(fault) => parsed matches Err(message) && message@ == fault,
                None => parsed matches Ok(config) && config.server_url@ == server_url@
                    && config.db_url@ == db_url@ && config.node_mode.text() == node_mode@
                    && Some(config.merkle_tree_size as nat) == parsed_decimal(
                    merkle_tree_size@,
                    u64::MAX as nat,
                ) && Some(config.base_reward as nat) == parsed_decimal(
                    base_reward@,
                    u128::MAX as nat,
                ) && Some(config.block_size as nat) == parsed_decimal(block_size@, u64::MAX as nat)
                    && Some(config.target as nat) == parsed_decimal(target@, u64::MAX as nat),
            },
    {
        let node_mode = match NodeMode::parse(node_mode) {
            Some(mode) => mode,
            None => {
                return Err(String::from_str("NODE_MODE must be full or test"));
            },
        };
        let merkle_tree_size = match parse_decimal(merkle_tree_size, u64::MAX as u128) {
            Some(size) => size as u64,
            None => {
                return Err(String::from_str("MERKLE_TREE_SIZE must be a number"));
            },
        };
        let base_reward = match parse_decimal(base_reward, u128::MAX) {
            Some(reward) => reward,
            None => {
                return Err(String::from_str("BASE_REWARD must be a number"));
            },
        };
        let block_size = match parse_decimal(block_size, u64::MAX as u128) {
            Some(size) => size as u64,
            None => {
                return Err(String::from_str("BLOCK_SIZE must be a number"));
            },
        };
        let target = match parse_decimal(target, u64::MAX as u128) {
            Some(target) => target as u64,
            None => {
                return Err(String::from_str("TARGET must be a number"));
            },
        };
        Ok(Config { server_url, db_url, node_mode, merkle_tree_size, base_reward, block_size, target })
    }
}

} // verus!

//! Triangular arbitrage over constant-product pools: the pool snapshot, the
//! reserve cache, path enumeration, swap pricing, candidate ranking, fork
//! simulation planning and the simulate-then-send bundle pipeline.

pub mod abi;
pub mod address;
pub mod block;
pub mod bundler;
pub mod constants;
pub mod evm;
pub mod multi;
pub mod paths;
pub mod pipeline;
pub mod pools;
pub mod reserves;
pub mod simulator;
pub mod strategy;
pub mod text;
pub mod uint;
pub mod updates;

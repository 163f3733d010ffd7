//! The `eth_feeHistory` response record, its wire form, and the ordering
//! used when a block's transactions are ranked by the tip they paid.

pub mod fee;
pub mod quantity;
pub mod reward;
pub mod wire;

//! A verified model of a single-instance greeting contract.
//!
//! The library holds the whole persistent state of one deployed instance in
//! [`contract::YourContract`]: the owner fixed at construction, the current
//! greeting text, a premium flag that mirrors the value attached to the most
//! recent update, a total update counter, and a per-caller update counter.
//! Every entry point is a verified function whose contract relates the new
//! state to the old one through the ghost model in [`model`]; the host-side
//! concerns (caller identity, attached value, balances, the value transfer
//! itself and the event log) enter and leave as plain arguments and results.

pub mod address;
pub mod uint256;
pub mod model;
pub mod contract;

pub use address::Address;
pub use uint256::U256;
pub use contract::ContractError;
pub use contract::GreetingChange;
pub use contract::TransferOrder;
pub use contract::YourContract;

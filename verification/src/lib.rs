//! A bilateral asset-exchange (barter escrow) engine.
//!
//! One party proposes a trade of owned assets for a requested set of assets;
//! a counterparty fills the request; custody of either side is released only
//! once validation and authorization conditions hold.  Assets are modelled as
//! plain identifiers and amounts: a host environment that actually holds the
//! assets drives this library and mirrors every movement it decides on.

pub mod bootstrap;
pub mod custody;
pub mod errors;
pub mod fungibles;
pub mod proposal;

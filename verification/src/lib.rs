//! Composable building blocks for contracts on a host that persists state in
//! a flat, byte-addressed key-value store: a typed slot algebra over that
//! store, around-advice hooks, a fungible-token controller, storage
//! accounting, an approval manager, and ownership / pause / role components.
pub mod account;
pub mod approval;
pub mod bytes;
pub mod env;
pub mod escrow;
pub mod event;
pub mod hook;
pub mod native_transaction_action;
pub mod nep141;
pub mod nep145;
pub mod nep171;
pub mod owner;
pub mod pause;
pub mod rbac;
pub mod simple_multisig;
pub mod slot;
pub mod store;
pub mod text;

//! Non-fungible-token actions: the argument records the sibling NFT
//! component's operations take. The component itself follows the same
//! slot-and-hook pattern as the fungible token and is not part of this core.
use vstd::prelude::*;

use crate::account::AccountId;

verus! {

/// A token identifier.
pub type TokenId = String;

/// Why a sender is allowed to perform an NFT transfer.
pub enum Nep171TransferAuthorization {
    /// The sender owns the token.
    Owner,
    /// The sender acts under the given approval id.
    ApprovalId { approval_id: u32 },
}

/// NFT mint action.
pub struct Nep171Mint {
    /// Token IDs to mint.
    pub token_ids: Vec<TokenId>,
    /// Account ID of the receiver.
    pub receiver_id: AccountId,
    /// Optional memo string.
    pub memo: Option<String>,
}

/// NFT burn action.
pub struct Nep171Burn {
    /// Token IDs to burn.
    pub token_ids: Vec<TokenId>,
    /// Account ID of the owner.
    pub owner_id: AccountId,
    /// Optional memo string.
    pub memo: Option<String>,
}

/// Transfer metadata, for both plain NFT transfers and transfer-calls.
pub struct Nep171Transfer {
    /// Why this sender may perform this transfer.
    pub authorization: Nep171TransferAuthorization,
    /// Sending account ID.
    pub sender_id: AccountId,
    /// Receiving account ID.
    pub receiver_id: AccountId,
    /// Token ID.
    pub token_id: TokenId,
    /// Optional memo string.
    pub memo: Option<String>,
    /// Message passed to the receiving contract, for transfer-calls.
    pub msg: Option<String>,
    /// Whether this transfer reverts an earlier transfer-call.
    pub revert: bool,
}

} // verus!

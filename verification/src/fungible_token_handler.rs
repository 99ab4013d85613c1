//! Pending effects: outbound calls described as values.
//!
//! Every state change of a call commits before any outbound call runs, so an
//! operation returns a description of the calls it wants scheduled instead of
//! performing them. A separate executor dispatches the effects after commit.

use vstd::prelude::*;

verus! {

/// An outbound call to schedule once the current call's state is committed.
#[derive(Clone, PartialEq, Debug)]
pub enum PendingEffect {
    /// A native transfer of the ledger's base currency.
    NativeTransfer { receiver: String, amount: u128 },
    /// A `ft_transfer` call on the payment-token ledger.
    FtTransfer { token: String, receiver: String, amount: u128 },
    /// A `ft_transfer_call` on the payment-token ledger, carrying a message.
    FtTransferCall { token: String, receiver: String, amount: u128, msg: String },
    /// A new-data-request call forwarded to the oracle peer; the executor
    /// reads the persisted record under `request_id` for the payload.
    OracleRequest { oracle: String, requester: String, amount: u128, request_id: u64 },
}

/// Describes a fungible-token transfer of `value` to `receiver_id` on the
/// ledger at `token_account_id`.
pub fn fungible_token_transfer(token_account_id: String, receiver_id: String, value: u128) -> (r:
    PendingEffect)
    ensures
        r == (PendingEffect::FtTransfer {
            token: token_account_id,
            receiver: receiver_id,
            amount: value,
        }),
{
    PendingEffect::FtTransfer { token: token_account_id, receiver: receiver_id, amount: value }
}

/// Describes a fungible-token transfer-and-call of `value` to `receiver_id`,
/// carrying `msg` for the receiver's deposit-notification hook.
pub fn fungible_token_transfer_call(
    token_account_id: String,
    receiver_id: String,
    value: u128,
    msg: String,
) -> (r: PendingEffect)
    ensures
        r == (PendingEffect::FtTransferCall {
            token: token_account_id,
            receiver: receiver_id,
            amount: value,
            msg: msg,
        }),
{
    PendingEffect::FtTransferCall {
        token: token_account_id,
        receiver: receiver_id,
        amount: value,
        msg: msg,
    }
}

} // verus!

//! The host environment as seen by one contract call: the persistent
//! key-value store, the call context the host supplies, and the effects the
//! call accumulates (log lines and scheduled promises).
use vstd::prelude::*;

use crate::account::AccountId;
use crate::store::Store;

verus! {

/// One action inside a scheduled promise.
#[derive(Debug)]
pub enum PromiseAction {
    /// Send native tokens.
    Transfer { amount: u128 },
    /// Call a method on the receiver.
    FunctionCall { method: String, args: String, deposit: u128, gas: u64 },
}

/// One link of a promise chain: an action aimed at one account.
pub struct PromiseLink {
    pub receiver: AccountId,
    pub action: PromiseAction,
}

/// The state a single call runs against. The store persists across calls;
/// logs and promises are the call's outward effects; the rest is the
/// read-only context the host supplies.
pub struct Env {
    /// The flat byte-addressed key-value store.
    pub store: Store,
    /// Log lines emitted so far, in order.
    pub logs: Vec<String>,
    /// Promise chains scheduled so far, in order. Each chain runs its links
    /// in sequence after the current call completes.
    pub promises: Vec<Vec<PromiseLink>>,
    /// The account that called this contract.
    pub predecessor: AccountId,
    /// The account the contract itself runs as.
    pub current_account: AccountId,
    /// Native-token deposit attached to the call, in indivisible units.
    pub attached_deposit: u128,
    /// The host's clock at the start of the call, in nanoseconds.
    pub block_timestamp: u64,
}

impl Env {
    /// A fresh environment over an empty store.
    pub fn new(predecessor: AccountId, current_account: AccountId) -> (env: Env)
        ensures
            env.store@ =~= Seq::<(Seq<u8>, Seq<u8>)>::empty(),
            env.logs@ =~= Seq::<String>::empty(),
            env.promises@ =~= Seq::<Vec<PromiseLink>>::empty(),
            env.predecessor == predecessor,
            env.current_account == current_account,
            env.attached_deposit == 0,
            env.block_timestamp == 0,
    {
        Env {
            store: Store::new(),
            logs: Vec::new(),
            promises: Vec::new(),
            predecessor,
            current_account,
            attached_deposit: 0,
            block_timestamp: 0,
        }
    }

    /// Appends one log line.
    pub fn log(&mut self, line: String)
        ensures
            final(self).logs@ == old(self).logs@.push(line),
            final(self).store == old(self).store,
            final(self).promises == old(self).promises,
            final(self).predecessor == old(self).predecessor,
            final(self).current_account == old(self).current_account,
            final(self).attached_deposit == old(self).attached_deposit,
            final(self).block_timestamp == old(self).block_timestamp,
    {
        self.logs.push(line);
    }

    /// Schedules one promise chain.
    pub fn schedule(&mut self, chain: Vec<PromiseLink>)
        ensures
            final(self).promises@ == old(self).promises@.push(chain),
            final(self).store == old(self).store,
            final(self).logs == old(self).logs,
            final(self).predecessor == old(self).predecessor,
            final(self).current_account == old(self).current_account,
            final(self).attached_deposit == old(self).attached_deposit,
            final(self).block_timestamp == old(self).block_timestamp,
    {
        self.promises.push(chain);
    }
}

/// Everything about the environment except the store: hook laws and
/// component contracts often need to say a step only touched state, or only
/// touched effects.
pub open spec fn same_context(a: Env, b: Env) -> bool {
    a.predecessor == b.predecessor && a.current_account == b.current_account
        && a.attached_deposit == b.attached_deposit && a.block_timestamp == b.block_timestamp
}

} // verus!

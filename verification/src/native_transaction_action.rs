//! A ready-made action for approval pipelines: a described native
//! transaction that, on execution, becomes one scheduled promise chain.
use vstd::prelude::*;

use crate::account::AccountId;
use crate::approval::Action;
use crate::env::Env;
use crate::env::PromiseAction;
use crate::env::PromiseLink;

verus! {

/// A native transaction: promise actions aimed at one receiver.
pub struct NativeTransactionAction {
    /// The account the promise actions are sent to.
    pub receiver_id: AccountId,
    /// The actions, in order.
    pub actions: Vec<PromiseAction>,
}

impl Action<Env> for NativeTransactionAction {
    type Output = ();

    /// One promise chain is scheduled: its links carry the described actions
    /// to the receiver, in order, and nothing else changes.
    open spec fn spec_execute(&self, pre: &Env, post: &Env, output: &()) -> bool {
        &&& post.promises@.len() == pre.promises@.len() + 1
        &&& post.promises@.last()@.len() == self.actions@.len()
        &&& forall|i: int|
            0 <= i < self.actions@.len() ==> (#[trigger] post.promises@.last()@[i]).action
                == self.actions@[i] && post.promises@.last()@[i].receiver@ == self.receiver_id@
        &&& post.store == pre.store
        &&& post.logs == pre.logs
        &&& crate::env::same_context(*pre, *post)
    }

    /// Schedules the described actions as one promise chain.
    fn execute(self, contract: &mut Env) -> (r: ())
    {
        let NativeTransactionAction { receiver_id, actions } = self;
        let mut chain: Vec<PromiseLink> = Vec::new();
        let n = actions.len();
        let mut remaining = actions;
        let mut i: usize = 0;
        proof {
            use_type_invariant(&receiver_id);
        }
        while i < n
            invariant
                i + remaining@.len() == n,
                n == self.actions@.len(),
                chain@.len() == i,
                forall|j: int|
                    0 <= j < i ==> (#[trigger] chain@[j]).action == self.actions@[j]
                        && chain@[j].receiver@ == self.receiver_id@,
                forall|j: int|
                    0 <= j < remaining@.len() ==> #[trigger] remaining@[j] == self.actions@[j + i],
                receiver_id == self.receiver_id,
            decreases n - i,
        {
            let mut rest = remaining.split_off(1);
            let action = match remaining.pop() {
                Some(a) => a,
                None => {
                    proof {
                        assert(false);
                    }
                    return ;
                },
            };
            chain.push(PromiseLink { receiver: receiver_id.clone(), action });
            core::mem::swap(&mut remaining, &mut rest);
            i = i + 1;
        }
        contract.schedule(chain);
        proof {
            assert(contract.promises@.last()@ =~= chain@);
        }
    }
}

} // verus!

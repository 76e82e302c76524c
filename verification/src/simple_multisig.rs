//! The reference approval configuration: k-of-n multisig with expiry.
//!
//! An approval is one account in the request's `approved_by` list.
//! Authorization demands a configured role; eligibility counts only approvals
//! whose accounts hold the role right now, so revoking a role rescinds the
//! effective approvals it granted, and a request expires a validity period
//! after its creation.
use vstd::prelude::*;

use crate::account::AccountId;
use crate::approval::ActionRequest;
use crate::approval::ApprovalConfiguration;
use crate::env::Env;
use crate::rbac::spec_has_role;
use crate::rbac::Rbac;

verus! {

/// Approval state of one request: who approved, and when it was created.
pub struct ApprovalState {
    /// Accounts that approved so far, in approval order, without duplicates.
    pub approved_by: Vec<AccountId>,
    /// The host clock at creation, in nanoseconds.
    pub created_at: u64,
}

impl ApprovalState {
    /// A fresh state with no approvals, created now.
    pub fn new(created_at: u64) -> (r: Self)
        ensures
            r.approved_by@ =~= Seq::<AccountId>::empty(),
            r.created_at == created_at,
    {
        ApprovalState { approved_by: Vec::new(), created_at }
    }
}

/// Multisig parameters: how many role-holding approvals a request needs, and
/// for how long it stays eligible.
pub struct Configuration {
    /// Number of approvals by current role holders a request needs.
    pub threshold: u8,
    /// How long a request stays eligible after creation, in nanoseconds.
    pub validity_period: u64,
    /// The role whose holders may act on requests.
    pub role: u8,
}

/// How many of the listed approvers hold `role` in the store right now.
pub open spec fn spec_valid_count(
    sv: Seq<(Seq<u8>, Seq<u8>)>,
    role: u8,
    approvers: Seq<AccountId>,
) -> nat
    decreases approvers.len(),
{
    if approvers.len() == 0 {
        0
    } else {
        spec_valid_count(sv, role, approvers.drop_last()) + (if spec_has_role(
            sv,
            role,
            approvers.last()@,
        ) {
            1nat
        } else {
            0nat
        })
    }
}

/// Whether an account is already listed among the approvers.
pub open spec fn spec_approved_by(approvers: Seq<AccountId>, account: Seq<char>) -> bool {
    exists|i: int| 0 <= i < approvers.len() && (#[trigger] approvers[i])@ == account
}

/// Whether a request created at `created_at` is still inside its validity
/// period at time `now`.
pub open spec fn spec_unexpired(created_at: u64, validity_period: u64, now: u64) -> bool {
    now - created_at <= validity_period
}

/// Counts the approvers that hold `role` right now.
fn count_valid(env: &Env, role: u8, approvers: &Vec<AccountId>) -> (r: usize)
    ensures
        r as nat == spec_valid_count(env.store@, role, approvers@),
{
    let n = approvers.len();
    let mut count: usize = 0;
    let mut i: usize = 0;
    while i < n
        invariant
            n == approvers@.len(),
            i <= n,
            count <= i,
            count as nat == spec_valid_count(env.store@, role, approvers@.take(i as int)),
        decreases n - i,
    {
        proof {
            assert(approvers@.take(i + 1).drop_last() =~= approvers@.take(i as int));
            assert(approvers@.take(i + 1).last() == approvers@[i as int]);
        }
        if Rbac::has_role(env, &approvers[i], role) {
            count = count + 1;
        }
        i = i + 1;
    }
    proof {
        assert(approvers@.take(n as int) =~= approvers@);
    }
    count
}

impl<A> ApprovalConfiguration<Env, A, ApprovalState> for Configuration {
    type ApprovalError = String;

    type RemovalError = ();

    type AuthorizationError = String;

    type ExecutionEligibilityError = String;

    /// Eligible when at least `threshold` approvers hold the role right now
    /// and the request has not expired.
    open spec fn spec_eligible(
        &self,
        contract: &Env,
        action_request: &ActionRequest<A, ApprovalState>,
    ) -> bool {
        spec_valid_count(contract.store@, self.role, action_request.approval_state.approved_by@)
            >= self.threshold && spec_unexpired(
            action_request.approval_state.created_at,
            self.validity_period,
            contract.block_timestamp,
        )
    }

    /// Requests are removable unconditionally.
    open spec fn spec_removable(
        &self,
        contract: &Env,
        action_request: &ActionRequest<A, ApprovalState>,
    ) -> bool {
        true
    }

    /// Authorized exactly when the account holds the configured role.
    open spec fn spec_authorized(
        &self,
        contract: &Env,
        account_id: &AccountId,
        action_request: &ActionRequest<A, ApprovalState>,
    ) -> bool {
        spec_has_role(contract.store@, self.role, account_id@)
    }

    /// An approval is accepted unless the account already approved.
    open spec fn spec_approval_accepted(
        &self,
        contract: &Env,
        account_id: &AccountId,
        action_request: &ActionRequest<A, ApprovalState>,
    ) -> bool {
        !spec_approved_by(action_request.approval_state.approved_by@, account_id@)
    }

    /// An accepted approval appends the account to the approvers and changes
    /// nothing else.
    open spec fn spec_approved(
        &self,
        contract: &Env,
        account_id: &AccountId,
        pre: &ActionRequest<A, ApprovalState>,
        post: &ActionRequest<A, ApprovalState>,
    ) -> bool {
        &&& post.approval_state.approved_by@ == pre.approval_state.approved_by@.push(*account_id)
        &&& post.approval_state.created_at == pre.approval_state.created_at
        &&& post.action == pre.action
    }

    fn is_approved_for_execution(
        &self,
        contract: &Env,
        action_request: &ActionRequest<A, ApprovalState>,
    ) -> (r: Result<(), String>)
        ensures
            r is Err && spec_unexpired(
                action_request.approval_state.created_at,
                self.validity_period,
                contract.block_timestamp,
            ) ==> (r matches Err(m) && m@ == ("Insufficient signatures")@),
    {
        let now = contract.block_timestamp;
        let created = action_request.approval_state.created_at;
        if now >= created && now - created > self.validity_period {
            return Err(
                <String as vstd::string::StringExecFns>::from_str("Approval expired"),
            );
        }
        let valid = count_valid(contract, self.role, &action_request.approval_state.approved_by);
        if valid >= self.threshold as usize {
            Ok(())
        } else {
            Err(<String as vstd::string::StringExecFns>::from_str("Insufficient signatures"))
        }
    }

    fn is_removable(
        &self,
        contract: &Env,
        action_request: &ActionRequest<A, ApprovalState>,
    ) -> (r: Result<(), ()>)
    {
        Ok(())
    }

    fn is_account_authorized(
        &self,
        contract: &Env,
        account_id: &AccountId,
        action_request: &ActionRequest<A, ApprovalState>,
    ) -> (r: Result<(), String>)
    {
        if Rbac::has_role(contract, account_id, self.role) {
            Ok(())
        } else {
            Err(<String as vstd::string::StringExecFns>::from_str("Unauthorized"))
        }
    }

    /// Adds the caller to the approvers; refuses a duplicate approval.
    fn try_approve_with_authorized_account(
        &self,
        contract: &Env,
        account_id: AccountId,
        action_request: &mut ActionRequest<A, ApprovalState>,
    ) -> (r: Result<(), String>)
        ensures
            spec_approved_by(old(action_request).approval_state.approved_by@, account_id@) ==> (
            r matches Err(m) && m@ == ("Already approved by account")@),
    {
        let n = action_request.approval_state.approved_by.len();
        let mut i: usize = 0;
        while i < n
            invariant
                n == action_request.approval_state.approved_by@.len(),
                i <= n,
                forall|j: int|
                    0 <= j < i ==> (#[trigger] action_request.approval_state.approved_by@[j])@
                        != account_id@,
                *action_request == *old(action_request),
            decreases n - i,
        {
            if action_request.approval_state.approved_by[i] == account_id {
                proof {
                    assert(action_request.approval_state.approved_by@[i as int]@ == account_id@);
                }
                return Err(
                    <String as vstd::string::StringExecFns>::from_str(
                        "Already approved by account",
                    ),
                );
            }
            i = i + 1;
        }
        action_request.approval_state.approved_by.push(account_id);
        Ok(())
    }
}

} // verus!

//! Queue and approve actions: a generic request / approve / execute pipeline
//! parameterized by an action type, an approval-state type, and a
//! configuration type that decides authorization and eligibility.
use vstd::prelude::*;

use crate::account::AccountId;
use crate::hook::HostAbort;

verus! {

/// Error message for use of the component before it is initialized.
pub const NOT_INITIALIZED: &'static str = "init must be called before use";

/// Error message for a second initialization.
pub const ALREADY_INITIALIZED: &'static str = "init can only be called once";

/// Actions can be executed after they are approved.
pub trait Action<Cont> {
    /// Return type of the action.
    type Output;

    /// What one execution does: how it moves the contract state and what it
    /// hands back.
    spec fn spec_execute(&self, pre: &Cont, post: &Cont, output: &Self::Output) -> bool;

    /// Perform the action. One time only.
    fn execute(self, contract: &mut Cont) -> (output: Self::Output)
        ensures
            self.spec_execute(old(contract), final(contract), &output),
    ;
}

/// An action request: an action waiting for its approval state to be
/// fulfilled.
pub struct ActionRequest<A, S> {
    /// The action that will be executed when the approval state is fulfilled.
    pub action: A,
    /// The associated approval state.
    pub approval_state: S,
}

/// Defines the operating parameters of an approval manager and performs
/// approvals. The contract state is handed in explicitly so predicates can
/// read current component state (say, role membership) at every call.
///
/// Each decision method is pinned to a spec-level verdict the implementor
/// defines, so the manager's contracts can say exactly which guard failed
/// and what an accepted approval did to the request.
pub trait ApprovalConfiguration<Cont, A, S> {
    /// Errors when approving a request.
    type ApprovalError;

    /// Errors when removing a request.
    type RemovalError;

    /// Errors when authorizing an account.
    type AuthorizationError;

    /// Errors when evaluating a request for execution candidacy.
    type ExecutionEligibilityError;

    /// Whether the request has reached full approval.
    spec fn spec_eligible(&self, contract: &Cont, action_request: &ActionRequest<A, S>) -> bool;

    /// Whether the request may be removed.
    spec fn spec_removable(&self, contract: &Cont, action_request: &ActionRequest<A, S>) -> bool;

    /// Whether the account may act on the request.
    spec fn spec_authorized(
        &self,
        contract: &Cont,
        account_id: &AccountId,
        action_request: &ActionRequest<A, S>,
    ) -> bool;

    /// Whether the account's approval is accepted on the request.
    spec fn spec_approval_accepted(
        &self,
        contract: &Cont,
        account_id: &AccountId,
        action_request: &ActionRequest<A, S>,
    ) -> bool;

    /// How an accepted approval rewrites the request.
    spec fn spec_approved(
        &self,
        contract: &Cont,
        account_id: &AccountId,
        pre: &ActionRequest<A, S>,
        post: &ActionRequest<A, S>,
    ) -> bool;

    /// Has the request reached full approval?
    fn is_approved_for_execution(&self, contract: &Cont, action_request: &ActionRequest<A, S>) -> (r:
        Result<(), Self::ExecutionEligibilityError>)
        ensures
            r is Ok <==> self.spec_eligible(contract, action_request),
    ;

    /// Can this request be removed by an allowed account?
    fn is_removable(&self, contract: &Cont, action_request: &ActionRequest<A, S>) -> (r: Result<
        (),
        Self::RemovalError,
    >)
        ensures
            r is Ok <==> self.spec_removable(contract, action_request),
    ;

    /// Is the account allowed to execute, approve, or remove this request?
    fn is_account_authorized(
        &self,
        contract: &Cont,
        account_id: &AccountId,
        action_request: &ActionRequest<A, S>,
    ) -> (r: Result<(), Self::AuthorizationError>)
        ensures
            r is Ok <==> self.spec_authorized(contract, account_id, action_request),
    ;

    /// Modify `action_request.approval_state` in place to increase approval.
    /// A refused approval leaves the request untouched: failed transitions
    /// have no effect.
    fn try_approve_with_authorized_account(
        &self,
        contract: &Cont,
        account_id: AccountId,
        action_request: &mut ActionRequest<A, S>,
    ) -> (r: Result<(), Self::ApprovalError>)
        ensures
            self.spec_approval_accepted(contract, &account_id, old(action_request)) ==> r is Ok
                && self.spec_approved(
                contract,
                &account_id,
                old(action_request),
                final(action_request),
            ),
            !self.spec_approval_accepted(contract, &account_id, old(action_request)) ==> r is Err
                && *final(action_request) == *old(action_request),
    ;
}

/// The account is not allowed to act on requests.
#[derive(Debug)]
pub struct UnauthorizedAccountError<AuthErr>(pub AccountId, pub AuthErr);

/// Errors when approving a request.
#[derive(Debug)]
pub enum ApprovalError<AuthErr, AppErr> {
    /// The account is not allowed to act on requests.
    UnauthorizedAccount(UnauthorizedAccountError<AuthErr>),
    /// The approval function encountered another error.
    ApprovalError(AppErr),
}

/// Errors when executing a request.
#[derive(Debug)]
pub enum ExecutionError<AuthErr, ExecErr> {
    /// The account is not allowed to act on requests.
    UnauthorizedAccount(UnauthorizedAccountError<AuthErr>),
    /// Unapproved requests cannot be executed.
    ExecutionEligibility(ExecErr),
}

/// Errors when creating a request.
#[derive(Debug)]
pub enum CreationError<AuthErr> {
    /// The account is not allowed to act on requests.
    UnauthorizedAccount(UnauthorizedAccountError<AuthErr>),
}

/// Errors when removing a request.
#[derive(Debug)]
pub enum RemovalError<AuthErr, RemErr> {
    /// The account is not allowed to act on requests.
    UnauthorizedAccount(UnauthorizedAccountError<AuthErr>),
    /// This request is not (or not yet) allowed to be removed.
    RemovalNotAllowed(RemErr),
}

/// Whether some pending request carries `id`.
pub open spec fn req_contains<A, S>(rs: Seq<(u32, ActionRequest<A, S>)>, id: u32) -> bool {
    exists|i: int| 0 <= i < rs.len() && (#[trigger] rs[i]).0 == id
}

/// The position of the pending request carrying `id`.
pub open spec fn req_index<A, S>(rs: Seq<(u32, ActionRequest<A, S>)>, id: u32) -> int {
    choose|i: int| 0 <= i < rs.len() && (#[trigger] rs[i]).0 == id
}

/// Pending request ids are unique and all below the next id to hand out.
pub open spec fn requests_wf<A, S>(rs: Seq<(u32, ActionRequest<A, S>)>, next: u32) -> bool {
    &&& forall|i: int, j: int|
        0 <= i < j < rs.len() ==> (#[trigger] rs[i]).0 != (#[trigger] rs[j]).0
    &&& forall|i: int| 0 <= i < rs.len() ==> (#[trigger] rs[i]).0 < next
}

/// Under well-formed ids, `req_index` is the one position holding `id`.
pub proof fn lemma_req_index<A, S>(rs: Seq<(u32, ActionRequest<A, S>)>, next: u32, id: u32)
    requires
        requests_wf(rs, next),
        req_contains(rs, id),
    ensures
        0 <= req_index(rs, id) < rs.len(),
        rs[req_index(rs, id)].0 == id,
        forall|i: int| 0 <= i < rs.len() && (#[trigger] rs[i]).0 == id ==> i == req_index(rs, id),
{
    let at = req_index(rs, id);
    assert forall|i: int| 0 <= i < rs.len() && (#[trigger] rs[i]).0 == id implies i == at by {
        if i < at {
            assert(rs[i].0 != rs[at].0);
        } else if at < i {
            assert(rs[at].0 != rs[i].0);
        }
    }
}

/// A request id is handed out once and never again: every id a manager has
/// already spent sits below the counter, so the id of the next created
/// request differs from every pending one — also from ids whose requests
/// were executed or removed, which sat below the counter as well.
pub proof fn lemma_next_id_fresh<A, S>(rs: Seq<(u32, ActionRequest<A, S>)>, next: u32)
    requires
        requests_wf(rs, next),
    ensures
        forall|i: int| 0 <= i < rs.len() ==> (#[trigger] rs[i]).0 != next,
        !req_contains(rs, next),
{
}

/// Collection of action requests that manages their approval state and
/// execution: the configuration (installed once), a strictly monotone id
/// counter, and the pending requests.
pub struct ApprovalManagerInternal<A, S, C> {
    config: Option<C>,
    next_request_id: u32,
    requests: Vec<(u32, ActionRequest<A, S>)>,
}

/// The approval manager: its public face is the request lifecycle on the
/// state held by [`ApprovalManagerInternal`].
pub type ApprovalManager<A, S, C> = ApprovalManagerInternal<A, S, C>;

impl<A, S, C> ApprovalManagerInternal<A, S, C> {
    /// The installed configuration.
    pub closed spec fn spec_config(&self) -> Option<C> {
        self.config
    }

    /// The id the next created request will get.
    pub closed spec fn spec_next_request_id(&self) -> u32 {
        self.next_request_id
    }

    /// The pending requests, in creation order.
    pub closed spec fn spec_requests(&self) -> Seq<(u32, ActionRequest<A, S>)> {
        self.requests@
    }

    /// Ids are unique and below the counter in every reachable manager.
    #[verifier::type_invariant]
    pub open spec fn wf(&self) -> bool {
        requests_wf(self.spec_requests(), self.spec_next_request_id())
    }

    /// A manager with no configuration, no requests, and a zero counter.
    pub fn new() -> (m: Self)
        ensures
            m.spec_config() is None,
            m.spec_next_request_id() == 0,
            m.spec_requests() =~= Seq::<(u32, ActionRequest<A, S>)>::empty(),
    {
        ApprovalManagerInternal { config: None, next_request_id: 0, requests: Vec::new() }
    }

    /// Installs the configuration. Can only be done once.
    pub fn init(&mut self, config: C) -> (r: Result<(), HostAbort>)
        ensures
            old(self).spec_config() is Some ==> r is Err && *final(self) == *old(self) && (
            r matches Err(a) && a.message@ == ("init can only be called once")@),
            old(self).spec_config() is None ==> r is Ok && final(self).spec_config() == Some(
                config,
            ) && final(self).spec_next_request_id() == old(self).spec_next_request_id()
                && final(self).spec_requests() == old(self).spec_requests(),
    {
        proof {
            use_type_invariant(&*self);
        }
        if self.config.is_some() {
            return Err(
                HostAbort {
                    message: <String as vstd::string::StringExecFns>::from_str(
                        "init can only be called once",
                    ),
                },
            );
        }
        self.config = Some(config);
        Ok(())
    }

    /// The installed configuration; fails before `init`.
    pub fn get_config(&self) -> (r: Result<&C, HostAbort>)
        ensures
            match r {
                Ok(c) => self.spec_config() == Some(*c),
                Err(a) => self.spec_config() is None && a.message@ == (
                "init must be called before use")@,
            },
    {
        match &self.config {
            Some(c) => Ok(c),
            None => Err(
                HostAbort {
                    message: <String as vstd::string::StringExecFns>::from_str(
                        "init must be called before use",
                    ),
                },
            ),
        }
    }

    /// The pending request carrying `request_id`, if any.
    pub fn get_request(&self, request_id: u32) -> (r: Option<&ActionRequest<A, S>>)
        ensures
            match r {
                Some(req) => req_contains(self.spec_requests(), request_id) && *req
                    == self.spec_requests()[req_index(self.spec_requests(), request_id)].1,
                None => !req_contains(self.spec_requests(), request_id),
            },
    {
        proof {
            use_type_invariant(&*self);
        }
        let n = self.requests.len();
        let mut i: usize = 0;
        while i < n
            invariant
                self.wf(),
                n == self.spec_requests().len(),
                i <= n,
                forall|j: int| 0 <= j < i ==> (#[trigger] self.spec_requests()[j]).0 != request_id,
            decreases n - i,
        {
            if self.requests[i].0 == request_id {
                proof {
                    assert(self.spec_requests()[i as int].0 == request_id);
                    lemma_req_index(self.spec_requests(), self.spec_next_request_id(), request_id);
                }
                return Some(&self.requests[i].1);
            }
            i = i + 1;
        }
        None
    }

    /// Position of the pending request carrying `request_id`.
    fn find_request(&self, request_id: u32) -> (r: Option<usize>)
        ensures
            match r {
                Some(i) => req_contains(self.spec_requests(), request_id) && i == req_index(
                    self.spec_requests(),
                    request_id,
                ) && i < self.spec_requests().len(),
                None => !req_contains(self.spec_requests(), request_id),
            },
    {
        proof {
            use_type_invariant(&*self);
        }
        let n = self.requests.len();
        let mut i: usize = 0;
        while i < n
            invariant
                self.wf(),
                n == self.spec_requests().len(),
                i <= n,
                forall|j: int| 0 <= j < i ==> (#[trigger] self.spec_requests()[j]).0 != request_id,
            decreases n - i,
        {
            if self.requests[i].0 == request_id {
                proof {
                    assert(self.spec_requests()[i as int].0 == request_id);
                    lemma_req_index(self.spec_requests(), self.spec_next_request_id(), request_id);
                }
                return Some(i);
            }
            i = i + 1;
        }
        None
    }
}


impl<A, S, C> ApprovalManagerInternal<A, S, C> {
    /// Creates a new action request with the given approval state, owned by
    /// the next fresh id; the caller must be authorized for it. The id
    /// counter moves strictly forward on success and never backward.
    pub fn create_request<Cont>(
        &mut self,
        contract: &Cont,
        predecessor: &AccountId,
        action: A,
        approval_state: S,
    ) -> (r: Result<Result<u32, CreationError<C::AuthorizationError>>, HostAbort>) where
        C: ApprovalConfiguration<Cont, A, S>,

        ensures
            final(self).spec_next_request_id() >= old(self).spec_next_request_id(),
            final(self).spec_config() == old(self).spec_config(),
            r is Err <==> old(self).spec_config() is None || old(self).spec_next_request_id()
                == u32::MAX,
            r is Err ==> *final(self) == *old(self),
            old(self).spec_config() is Some && old(self).spec_next_request_id() != u32::MAX ==> ({
                let c = old(self).spec_config()->Some_0;
                let req = ActionRequest { action, approval_state };
                if c.spec_authorized(contract, predecessor, &req) {
                    match r {
                        Ok(inner) => match inner {
                            Ok(id) => {
                                &&& id == old(self).spec_next_request_id()
                                &&& final(self).spec_next_request_id() == old(
                                    self,
                                ).spec_next_request_id() + 1
                                &&& final(self).spec_requests() == old(
                                    self,
                                ).spec_requests().push((id, req))
                            },
                            Err(_) => false,
                        },
                        Err(_) => false,
                    }
                } else {
                    match r {
                        Ok(inner) => match inner {
                            Ok(_) => false,
                            Err(e) => e matches CreationError::UnauthorizedAccount(u) && u.0
                                == *predecessor && *final(self) == *old(self),
                        },
                        Err(_) => false,
                    }
                }
            }),
    {
        proof {
            use_type_invariant(&*self);
        }
        if self.config.is_none() {
            return Err(
                HostAbort {
                    message: <String as vstd::string::StringExecFns>::from_str(
                        "init must be called before use",
                    ),
                },
            );
        }
        let id = self.next_request_id;
        let next = match id.checked_add(1) {
            Some(n) => n,
            None => {
                return Err(
                    HostAbort {
                        message: <String as vstd::string::StringExecFns>::from_str(
                            "request id overflow",
                        ),
                    },
                );
            },
        };
        let request = ActionRequest { action, approval_state };
        match &self.config {
            Some(config) => {
                match config.is_account_authorized(contract, predecessor, &request) {
                    Ok(()) => {},
                    Err(e) => {
                        return Ok(
                            Err(
                                CreationError::UnauthorizedAccount(
                                    UnauthorizedAccountError(predecessor.clone(), e),
                                ),
                            ),
                        );
                    },
                }
            },
            None => {},
        }
        self.next_request_id = next;
        let mut requests: Vec<(u32, ActionRequest<A, S>)> = Vec::new();
        core::mem::swap(&mut requests, &mut self.requests);
        requests.push((id, request));
        proof {
            assert(requests_wf(requests@, next as u32)) by {
                assert(forall|i: int|
                    0 <= i < requests@.len() - 1 ==> #[trigger] requests@[i] == old(
                        self,
                    ).spec_requests()[i]);
                assert(requests@.last().0 == id);
            };
        }
        self.requests = requests;
        Ok(Ok(id))
    }

    /// Executes the request and removes it, when it is eligible and the
    /// caller is authorized. The action runs exactly once: the request is
    /// gone afterwards, and its id is never handed out again.
    pub fn execute_request<Cont>(
        &mut self,
        contract: &mut Cont,
        predecessor: &AccountId,
        request_id: u32,
    ) -> (r: Result<
        Result<A::Output, ExecutionError<C::AuthorizationError, C::ExecutionEligibilityError>>,
        HostAbort,
    >) where A: Action<Cont>, C: ApprovalConfiguration<Cont, A, S>,
        ensures
            final(self).spec_next_request_id() == old(self).spec_next_request_id(),
            final(self).spec_config() == old(self).spec_config(),
            r is Err <==> !req_contains(old(self).spec_requests(), request_id) || old(
                self,
            ).spec_config() is None,
            r is Err ==> *final(self) == *old(self) && *final(contract) == *old(contract),
            old(self).spec_config() is Some && req_contains(old(self).spec_requests(), request_id)
                ==> ({
                let c = old(self).spec_config()->Some_0;
                let at = req_index(old(self).spec_requests(), request_id);
                let req = old(self).spec_requests()[at].1;
                &&& (!c.spec_eligible(old(contract), &req) ==> (match r {
                    Ok(inner) => inner matches Err(
                        ExecutionError::ExecutionEligibility(_),
                    ) && *final(self) == *old(self) && *final(contract) == *old(contract),
                    Err(_) => false,
                }))
                &&& (c.spec_eligible(old(contract), &req) && !c.spec_authorized(
                    old(contract),
                    predecessor,
                    &req,
                ) ==> (match r {
                    Ok(inner) => inner matches Err(ExecutionError::UnauthorizedAccount(u)) && u.0
                        == *predecessor && *final(self) == *old(self)
                        && *final(contract) == *old(contract),
                    Err(_) => false,
                }))
                &&& (c.spec_eligible(old(contract), &req) && c.spec_authorized(
                    old(contract),
                    predecessor,
                    &req,
                ) ==> (match r {
                    Ok(inner) => match inner {
                        Ok(output) => {
                            &&& final(self).spec_requests() == old(self).spec_requests().remove(
                                at,
                            )
                            &&& !req_contains(final(self).spec_requests(), request_id)
                            &&& req.action.spec_execute(old(contract), final(contract), &output)
                        },
                        Err(_) => false,
                    },
                    Err(_) => false,
                }))
            }),
    {
        proof {
            use_type_invariant(&*self);
        }
        let at = match self.find_request(request_id) {
            Some(i) => i,
            None => {
                return Err(
                    HostAbort {
                        message: <String as vstd::string::StringExecFns>::from_str(
                            "no such request",
                        ),
                    },
                );
            },
        };
        match &self.config {
            Some(config) => {
                match config.is_approved_for_execution(contract, &self.requests[at].1) {
                    Ok(()) => {},
                    Err(e) => {
                        return Ok(Err(ExecutionError::ExecutionEligibility(e)));
                    },
                }
                match config.is_account_authorized(contract, predecessor, &self.requests[at].1) {
                    Ok(()) => {},
                    Err(e) => {
                        return Ok(
                            Err(
                                ExecutionError::UnauthorizedAccount(
                                    UnauthorizedAccountError(predecessor.clone(), e),
                                ),
                            ),
                        );
                    },
                }
            },
            None => {
                return Err(
                    HostAbort {
                        message: <String as vstd::string::StringExecFns>::from_str(
                            "init must be called before use",
                        ),
                    },
                );
            },
        }
        let mut requests: Vec<(u32, ActionRequest<A, S>)> = Vec::new();
        core::mem::swap(&mut requests, &mut self.requests);
        let taken = requests.remove(at);
        proof {
            assert(requests_wf(requests@, old(self).spec_next_request_id())) by {
                assert(forall|i: int|
                    0 <= i < at ==> #[trigger] requests@[i] == old(self).spec_requests()[i]);
                assert(forall|i: int|
                    at <= i < requests@.len() ==> #[trigger] requests@[i] == old(
                        self,
                    ).spec_requests()[i + 1]);
            };
            assert(!req_contains(requests@, request_id)) by {
                lemma_req_index(
                    old(self).spec_requests(),
                    old(self).spec_next_request_id(),
                    request_id,
                );
                assert forall|i: int| 0 <= i < requests@.len() implies (#[trigger] requests@[i]).0
                    != request_id by {
                    if i < at {
                        assert(requests@[i] == old(self).spec_requests()[i]);
                    } else {
                        assert(requests@[i] == old(self).spec_requests()[i + 1]);
                    }
                }
            };
        }
        self.requests = requests;
        let output = taken.1.action.execute(contract);
        Ok(Ok(output))
    }

    /// Whether the request could be executed now, were an authorized account
    /// to ask.
    pub fn is_approved_for_execution<Cont>(&self, contract: &Cont, request_id: u32) -> (r: Result<
        Result<(), C::ExecutionEligibilityError>,
        HostAbort,
    >) where C: ApprovalConfiguration<Cont, A, S>,
        ensures
            r is Err <==> !req_contains(self.spec_requests(), request_id) || self.spec_config()
                is None,
            self.spec_config() is Some && req_contains(self.spec_requests(), request_id) ==> ({
                let c = self.spec_config()->Some_0;
                let req = self.spec_requests()[req_index(self.spec_requests(), request_id)].1;
                match r {
                    Ok(inner) => inner is Ok <==> c.spec_eligible(contract, &req),
                    Err(_) => false,
                }
            }),
    {
        let at = match self.find_request(request_id) {
            Some(i) => i,
            None => {
                return Err(
                    HostAbort {
                        message: <String as vstd::string::StringExecFns>::from_str(
                            "no such request",
                        ),
                    },
                );
            },
        };
        match &self.config {
            Some(config) => {
                match config.is_approved_for_execution(contract, &self.requests[at].1) {
                    Ok(()) => Ok(Ok(())),
                    Err(e) => Ok(Err(e)),
                }
            },
            None => Err(
                HostAbort {
                    message: <String as vstd::string::StringExecFns>::from_str(
                        "init must be called before use",
                    ),
                },
            ),
        }
    }

    /// Lets the caller add their approval to the request: the configuration
    /// mutates the approval state in place, and the result is persisted.
    pub fn approve_request<Cont>(
        &mut self,
        contract: &Cont,
        predecessor: &AccountId,
        request_id: u32,
    ) -> (r: Result<
        Result<(), ApprovalError<C::AuthorizationError, C::ApprovalError>>,
        HostAbort,
    >) where C: ApprovalConfiguration<Cont, A, S>,
        ensures
            final(self).spec_next_request_id() == old(self).spec_next_request_id(),
            final(self).spec_config() == old(self).spec_config(),
            r is Err <==> !req_contains(old(self).spec_requests(), request_id) || old(
                self,
            ).spec_config() is None,
            r is Err ==> *final(self) == *old(self),
            old(self).spec_config() is Some && req_contains(old(self).spec_requests(), request_id)
                ==> ({
                let c = old(self).spec_config()->Some_0;
                let at = req_index(old(self).spec_requests(), request_id);
                let req = old(self).spec_requests()[at].1;
                &&& (!c.spec_authorized(contract, predecessor, &req) ==> (match r {
                    Ok(inner) => inner matches Err(ApprovalError::UnauthorizedAccount(u)) && u.0
                        == *predecessor
                        && final(self).spec_requests() == old(self).spec_requests(),
                    Err(_) => false,
                }))
                &&& (c.spec_authorized(contract, predecessor, &req) && !c.spec_approval_accepted(
                    contract,
                    predecessor,
                    &req,
                ) ==> (match r {
                    Ok(inner) => inner matches Err(ApprovalError::ApprovalError(_))
                        && final(self).spec_requests() == old(self).spec_requests(),
                    Err(_) => false,
                }))
                &&& (c.spec_authorized(contract, predecessor, &req) && c.spec_approval_accepted(
                    contract,
                    predecessor,
                    &req,
                ) ==> (match r {
                    Ok(inner) => {
                        &&& inner is Ok
                        &&& final(self).spec_requests().len() == old(self).spec_requests().len()
                        &&& (forall|i: int|
                            0 <= i < old(self).spec_requests().len() && i != at
                                ==> #[trigger] final(self).spec_requests()[i]
                                == old(self).spec_requests()[i])
                        &&& final(self).spec_requests()[at].0 == request_id
                        &&& c.spec_approved(
                            contract,
                            predecessor,
                            &req,
                            &final(self).spec_requests()[at].1,
                        )
                    },
                    Err(_) => false,
                }))
            }),
    {
        proof {
            use_type_invariant(&*self);
        }
        let at = match self.find_request(request_id) {
            Some(i) => i,
            None => {
                return Err(
                    HostAbort {
                        message: <String as vstd::string::StringExecFns>::from_str(
                            "no such request",
                        ),
                    },
                );
            },
        };
        if self.config.is_none() {
            return Err(
                HostAbort {
                    message: <String as vstd::string::StringExecFns>::from_str(
                        "init must be called before use",
                    ),
                },
            );
        }
        let auth = match &self.config {
            Some(config) => config.is_account_authorized(
                contract,
                predecessor,
                &self.requests[at].1,
            ),
            None => {
                return Err(
                    HostAbort {
                        message: <String as vstd::string::StringExecFns>::from_str(
                            "init must be called before use",
                        ),
                    },
                );
            },
        };
        match auth {
            Ok(()) => {},
            Err(e) => {
                return Ok(
                    Err(
                        ApprovalError::UnauthorizedAccount(
                            UnauthorizedAccountError(predecessor.clone(), e),
                        ),
                    ),
                );
            },
        }
        let mut requests: Vec<(u32, ActionRequest<A, S>)> = Vec::new();
        core::mem::swap(&mut requests, &mut self.requests);
        let mut taken = requests.remove(at);
        let approval = match &self.config {
            Some(config) => config.try_approve_with_authorized_account(
                contract,
                predecessor.clone(),
                &mut taken.1,
            ),
            None => Ok(()),
        };
        requests.insert(at, taken);
        proof {
            assert(requests@ =~= old(self).spec_requests().update(
                at as int,
                (request_id, requests@[at as int].1),
            ));
            assert(requests_wf(requests@, old(self).spec_next_request_id())) by {
                assert(forall|i: int|
                    0 <= i < requests@.len() && i != at ==> #[trigger] requests@[i] == old(
                        self,
                    ).spec_requests()[i]);
                assert(requests@[at as int].0 == request_id);
            };
        }
        self.requests = requests;
        match approval {
            Ok(()) => Ok(Ok(())),
            Err(e) => Ok(Err(ApprovalError::ApprovalError(e))),
        }
    }

    /// Removes the request without executing it, when the configuration
    /// allows removal and the caller is authorized.
    pub fn remove_request<Cont>(
        &mut self,
        contract: &Cont,
        predecessor: &AccountId,
        request_id: u32,
    ) -> (r: Result<
        Result<(), RemovalError<C::AuthorizationError, C::RemovalError>>,
        HostAbort,
    >) where C: ApprovalConfiguration<Cont, A, S>,
        ensures
            final(self).spec_next_request_id() == old(self).spec_next_request_id(),
            final(self).spec_config() == old(self).spec_config(),
            r is Err <==> !req_contains(old(self).spec_requests(), request_id) || old(
                self,
            ).spec_config() is None,
            r is Err ==> *final(self) == *old(self),
            old(self).spec_config() is Some && req_contains(old(self).spec_requests(), request_id)
                ==> ({
                let c = old(self).spec_config()->Some_0;
                let at = req_index(old(self).spec_requests(), request_id);
                let req = old(self).spec_requests()[at].1;
                &&& (!c.spec_removable(contract, &req) ==> (match r {
                    Ok(inner) => inner matches Err(RemovalError::RemovalNotAllowed(_))
                        && *final(self) == *old(self),
                    Err(_) => false,
                }))
                &&& (c.spec_removable(contract, &req) && !c.spec_authorized(
                    contract,
                    predecessor,
                    &req,
                ) ==> (match r {
                    Ok(inner) => inner matches Err(RemovalError::UnauthorizedAccount(u)) && u.0
                        == *predecessor && *final(self) == *old(self),
                    Err(_) => false,
                }))
                &&& (c.spec_removable(contract, &req) && c.spec_authorized(
                    contract,
                    predecessor,
                    &req,
                ) ==> (match r {
                    Ok(inner) => inner is Ok
                        && final(self).spec_requests() == old(self).spec_requests().remove(at)
                        && !req_contains(final(self).spec_requests(), request_id),
                    Err(_) => false,
                }))
            }),
    {
        proof {
            use_type_invariant(&*self);
        }
        let at = match self.find_request(request_id) {
            Some(i) => i,
            None => {
                return Err(
                    HostAbort {
                        message: <String as vstd::string::StringExecFns>::from_str(
                            "no such request",
                        ),
                    },
                );
            },
        };
        match &self.config {
            Some(config) => {
                match config.is_removable(contract, &self.requests[at].1) {
                    Ok(()) => {},
                    Err(e) => {
                        return Ok(Err(RemovalError::RemovalNotAllowed(e)));
                    },
                }
                match config.is_account_authorized(contract, predecessor, &self.requests[at].1) {
                    Ok(()) => {},
                    Err(e) => {
                        return Ok(
                            Err(
                                RemovalError::UnauthorizedAccount(
                                    UnauthorizedAccountError(predecessor.clone(), e),
                                ),
                            ),
                        );
                    },
                }
            },
            None => {
                return Err(
                    HostAbort {
                        message: <String as vstd::string::StringExecFns>::from_str(
                            "init must be called before use",
                        ),
                    },
                );
            },
        }
        let mut requests: Vec<(u32, ActionRequest<A, S>)> = Vec::new();
        core::mem::swap(&mut requests, &mut self.requests);
        requests.remove(at);
        proof {
            assert(requests_wf(requests@, old(self).spec_next_request_id())) by {
                assert(forall|i: int|
                    0 <= i < at ==> #[trigger] requests@[i] == old(self).spec_requests()[i]);
                assert(forall|i: int|
                    at <= i < requests@.len() ==> #[trigger] requests@[i] == old(
                        self,
                    ).spec_requests()[i + 1]);
            };
            assert(!req_contains(requests@, request_id)) by {
                lemma_req_index(
                    old(self).spec_requests(),
                    old(self).spec_next_request_id(),
                    request_id,
                );
                assert forall|i: int| 0 <= i < requests@.len() implies (#[trigger] requests@[i]).0
                    != request_id by {
                    if i < at {
                        assert(requests@[i] == old(self).spec_requests()[i]);
                    } else {
                        assert(requests@[i] == old(self).spec_requests()[i + 1]);
                    }
                }
            };
        }
        self.requests = requests;
        Ok(Ok(()))
    }
}

impl<A, S, C> ApprovalManagerInternal<A, S, C> {
    /// Takes the manager apart into plain values, so the embedding contract
    /// can persist the component — typically encoded into its root slot —
    /// between calls. The id counter travels with the requests: it is what
    /// keeps ids from ever being reused.
    pub fn export(self) -> (out: (Option<C>, u32, Vec<(u32, ActionRequest<A, S>)>))
        ensures
            out.0 == self.spec_config(),
            out.1 == self.spec_next_request_id(),
            out.2@ == self.spec_requests(),
            requests_wf(out.2@, out.1),
    {
        proof {
            use_type_invariant(&self);
        }
        let ApprovalManagerInternal { config, next_request_id, requests } = self;
        (config, next_request_id, requests)
    }

    /// Rebuilds a manager from persisted values. Refuses request lists whose
    /// ids repeat or reach past the counter: a state in which the counter
    /// could hand an id out twice is never accepted.
    pub fn import(
        config: Option<C>,
        next_request_id: u32,
        requests: Vec<(u32, ActionRequest<A, S>)>,
    ) -> (r: Option<Self>)
        ensures
            match r {
                Some(m) => {
                    &&& m.spec_config() == config
                    &&& m.spec_next_request_id() == next_request_id
                    &&& m.spec_requests() == requests@
                    &&& requests_wf(requests@, next_request_id)
                },
                None => !requests_wf(requests@, next_request_id),
            },
    {
        let n = requests.len();
        let mut i: usize = 0;
        while i < n
            invariant
                n == requests@.len(),
                i <= n,
                forall|a: int, b: int|
                    0 <= a < b < n && a < i ==> (#[trigger] requests@[a]).0 != (
                    #[trigger] requests@[b]).0,
                forall|a: int| 0 <= a < i ==> (#[trigger] requests@[a]).0 < next_request_id,
            decreases n - i,
        {
            if requests[i].0 >= next_request_id {
                return None;
            }
            let mut j: usize = i + 1;
            while j < n
                invariant
                    n == requests@.len(),
                    i < j,
                    j <= n,
                    forall|b: int|
                        i < b < j ==> (#[trigger] requests@[b]).0 != requests@[i as int].0,
                decreases n - j,
            {
                if requests[j].0 == requests[i].0 {
                    return None;
                }
                j = j + 1;
            }
            i = i + 1;
        }
        Some(ApprovalManagerInternal { config, next_request_id, requests })
    }
}
} // verus!

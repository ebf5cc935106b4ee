use vstd::prelude::*;

use crate::types::PrivateKey;

verus! {

/// The maximum number of transitions (and so of requests) in a transaction.
pub const MAX_TRANSITIONS: usize = 32;

/// Errors of the call stack.
#[derive(Debug, Clone, Copy, PartialEq, Eq, Structural)]
pub enum CallStackError {
    /// The stack already holds the maximum number of requests.
    TooManyRequests,
    /// There are no more requests on the stack.
    NoMoreRequests,
}

/// An authorization: the requests that remain to be processed, in order, and the transitions
/// produced so far.
pub struct Authorization<R, X> {
    requests: Vec<R>,
    transitions: Vec<X>,
}

impl<R, X> Authorization<R, X> {
    /// The transitions produced so far.
    pub closed spec fn transitions(&self) -> Seq<X> {
        self.transitions@
    }
}

impl<R, X> View for Authorization<R, X> {
    type V = Seq<R>;

    closed spec fn view(&self) -> Seq<R> {
        self.requests@
    }
}

impl<R: Clone, X: Clone> Authorization<R, X> {
    /// Builds an authorization of the given requests and transitions.
    pub fn new(requests: Vec<R>, transitions: Vec<X>) -> (r: Self)
        ensures
            r@ == requests@,
            r.transitions() == transitions@,
    {
        Authorization { requests, transitions }
    }

    /// Appends a request.
    pub fn push(&mut self, request: R)
        ensures
            final(self)@ == old(self)@.push(request),
            final(self).transitions() == old(self).transitions(),
    {
        self.requests.push(request);
    }

    /// Removes and returns the next request.
    pub fn next(&mut self) -> (r: Result<R, CallStackError>)
        ensures
            old(self)@.len() > 0 ==> r == Ok::<R, CallStackError>(old(self)@[0]) && final(self)@ == old(self)@.drop_first(),
            old(self)@.len() == 0 ==> r == Err::<R, CallStackError>(CallStackError::NoMoreRequests) && final(self)@ == old(self)@,
            final(self).transitions() == old(self).transitions(),
    {
        if self.requests.len() == 0 {
            return Err(CallStackError::NoMoreRequests);
        }
        let request = self.requests.remove(0);
        assert(old(self)@.remove(0) =~= old(self)@.drop_first());
        Ok(request)
    }

    /// Returns a copy of the next request.
    pub fn peek_next(&self) -> (r: Result<R, CallStackError>)
        ensures
            self@.len() > 0 ==> (r matches Ok(v) && cloned(self@[0], v)),
            self@.len() == 0 ==> r == Err::<R, CallStackError>(CallStackError::NoMoreRequests),
    {
        if self.requests.len() == 0 {
            return Err(CallStackError::NoMoreRequests);
        }
        Ok(self.requests[0].clone())
    }

    /// Returns a new and independent replica of the authorization.
    pub fn replicate(&self) -> (r: Self)
        ensures
            r.replica_of(self),
    {
        Authorization { requests: self.requests.clone(), transitions: self.transitions.clone() }
    }

    /// `self` is a replica of `other`: its requests and transitions are clones of `other`'s, in
    /// order.
    pub open spec fn replica_of(&self, other: &Self) -> bool {
        &&& self@.len() == other@.len()
        &&& forall|i: int| 0 <= i < other@.len() ==> cloned(other@[i], #[trigger] self@[i])
        &&& self.transitions().len() == other.transitions().len()
        &&& forall|i: int|
            0 <= i < other.transitions().len() ==> cloned(other.transitions()[i], #[trigger] self.transitions()[i])
    }
}

/// Pushes the request unless the stack already holds `MAX_TRANSITIONS` requests.
fn push_bounded<R>(requests: &mut Vec<R>, request: R) -> (r: Result<(), CallStackError>)
    ensures
        match r {
            Ok(()) => old(requests)@.len() < MAX_TRANSITIONS && final(requests)@ == old(requests)@.push(request),
            Err(e) => e == CallStackError::TooManyRequests && old(requests)@.len() >= MAX_TRANSITIONS
                && final(requests)@ == old(requests)@,
        },
{
    // Check that the number of requests does not exceed the maximum.
    if requests.len() >= MAX_TRANSITIONS {
        return Err(CallStackError::TooManyRequests);
    }
    // Push the request to the stack.
    requests.push(request);
    Ok(())
}

/// Pops the last request.
fn pop_last<R>(requests: &mut Vec<R>) -> (r: Result<R, CallStackError>)
    ensures
        old(requests)@.len() == 0 ==> r == Err::<R, CallStackError>(CallStackError::NoMoreRequests)
            && final(requests)@ == old(requests)@,
        old(requests)@.len() > 0 ==> r == Ok::<R, CallStackError>(old(requests)@.last()) && final(requests)@
            == old(requests)@.drop_last(),
{
    match requests.pop() {
        Some(request) => Ok(request),
        None => Err(CallStackError::NoMoreRequests),
    }
}

/// Returns a copy of the last request.
fn peek_last<R: Clone>(requests: &Vec<R>) -> (r: Result<R, CallStackError>)
    ensures
        requests@.len() == 0 ==> r == Err::<R, CallStackError>(CallStackError::NoMoreRequests),
        requests@.len() > 0 ==> (r matches Ok(v) && cloned(requests@.last(), v)),
{
    let n = requests.len();
    if n == 0 {
        Err(CallStackError::NoMoreRequests)
    } else {
        Ok(requests[n - 1].clone())
    }
}

/// The call stack of a process: the pending requests, and what the process is doing with them,
/// with what it needs for that: the private key of the caller, the authorization being built,
/// the circuit assignments collected, the execution trace.
pub enum CallStack<R, X, A, T> {
    /// Authorizing the requests with the private key, into the authorization.
    Authorize(Vec<R>, PrivateKey, Authorization<R, X>),
    /// Synthesizing the circuits of the requests with the private key, into the authorization.
    Synthesize(Vec<R>, PrivateKey, Authorization<R, X>),
    /// Checking a deployment: the assignments collected, and the optional constraint and variable
    /// limits.
    CheckDeployment(Vec<R>, PrivateKey, Vec<A>, Option<u64>, Option<u64>),
    /// Evaluating an authorization.
    Evaluate(Authorization<R, X>),
    /// Executing an authorization, recording the trace.
    Execute(Authorization<R, X>, T),
    /// Running the requests of a package, collecting the assignments.
    PackageRun(Vec<R>, PrivateKey, Vec<A>),
}

impl<R: Clone, X: Clone, A: Clone, T: Clone> CallStack<R, X, A, T> {
    /// The pending requests: those of the stack, or those of the authorization.
    pub open spec fn requests(&self) -> Seq<R> {
        match self {
            CallStack::Authorize(requests, _, _) => requests@,
            CallStack::Synthesize(requests, _, _) => requests@,
            CallStack::CheckDeployment(requests, _, _, _, _) => requests@,
            CallStack::Evaluate(authorization) => authorization@,
            CallStack::Execute(authorization, _) => authorization@,
            CallStack::PackageRun(requests, _, _) => requests@,
        }
    }

    /// The call stack processes an authorization (in order) rather than a stack of requests.
    pub open spec fn is_authorization(&self) -> bool {
        self is Evaluate || self is Execute
    }

    /// Two call stacks are of the same kind and agree on everything but their pending requests.
    pub open spec fn same_kind(&self, other: &Self) -> bool {
        match (self, other) {
            (CallStack::Authorize(_, k1, a1), CallStack::Authorize(_, k2, a2)) => k1 == k2 && a1 == a2,
            (CallStack::Synthesize(_, k1, a1), CallStack::Synthesize(_, k2, a2)) => k1 == k2 && a1 == a2,
            (CallStack::CheckDeployment(_, k1, s1, c1, v1), CallStack::CheckDeployment(_, k2, s2, c2, v2)) => k1
                == k2 && s1@ == s2@ && c1 == c2 && v1 == v2,
            (CallStack::Evaluate(a1), CallStack::Evaluate(a2)) => a1.transitions() == a2.transitions(),
            (CallStack::Execute(a1, t1), CallStack::Execute(a2, t2)) => a1.transitions() == a2.transitions() && t1
                == t2,
            (CallStack::PackageRun(_, k1, s1), CallStack::PackageRun(_, k2, s2)) => k1 == k2 && s1@ == s2@,
            _ => false,
        }
    }

    /// `self` is a replica of `other`: the same kind, the same private key and limits, and clones
    /// of its requests, its authorization, its assignments and its trace.
    pub open spec fn replica_of(&self, other: &Self) -> bool {
        &&& self.requests().len() == other.requests().len()
        &&& forall|i: int|
            0 <= i < other.requests().len() ==> cloned(other.requests()[i], #[trigger] self.requests()[i])
        &&& match (self, other) {
            (CallStack::Authorize(_, k1, a1), CallStack::Authorize(_, k2, a2)) => k1 == k2 && a1.replica_of(&a2),
            (CallStack::Synthesize(_, k1, a1), CallStack::Synthesize(_, k2, a2)) => k1 == k2 && a1.replica_of(&a2),
            (CallStack::CheckDeployment(_, k1, s1, c1, v1), CallStack::CheckDeployment(_, k2, s2, c2, v2)) => {
                &&& k1 == k2 && c1 == c2 && v1 == v2
                &&& s1@.len() == s2@.len()
                &&& forall|i: int| 0 <= i < s2@.len() ==> cloned(s2@[i], #[trigger] s1@[i])
            },
            (CallStack::Evaluate(a1), CallStack::Evaluate(a2)) => a1.replica_of(&a2),
            (CallStack::Execute(a1, t1), CallStack::Execute(a2, t2)) => a1.replica_of(&a2) && cloned(*t2, *t1),
            (CallStack::PackageRun(_, k1, s1), CallStack::PackageRun(_, k2, s2)) => {
                &&& k1 == k2
                &&& s1@.len() == s2@.len()
                &&& forall|i: int| 0 <= i < s2@.len() ==> cloned(s2@[i], #[trigger] s1@[i])
            },
            _ => false,
        }
    }

    /// Initializes a call stack as `Self::Evaluate`.
    pub fn evaluate(authorization: Authorization<R, X>) -> (r: Result<Self, CallStackError>)
        ensures
            r matches Ok(s) && s == CallStack::<R, X, A, T>::Evaluate(authorization),
    {
        Ok(CallStack::Evaluate(authorization))
    }

    /// Initializes a call stack as `Self::Execute`.
    pub fn execute(authorization: Authorization<R, X>, trace: T) -> (r: Result<Self, CallStackError>)
        ensures
            r matches Ok(s) && s == CallStack::<R, X, A, T>::Execute(authorization, trace),
    {
        Ok(CallStack::Execute(authorization, trace))
    }

    /// Returns a new and independent replica of the call stack.
    pub fn replicate(&self) -> (r: Self)
        ensures
            r.replica_of(self),
    {
        match self {
            CallStack::Authorize(requests, private_key, authorization) => {
                CallStack::Authorize(requests.clone(), *private_key, authorization.replicate())
            },
            CallStack::Synthesize(requests, private_key, authorization) => {
                CallStack::Synthesize(requests.clone(), *private_key, authorization.replicate())
            },
            CallStack::CheckDeployment(requests, private_key, assignments, constraint_limit, variable_limit) => {
                CallStack::CheckDeployment(
                    requests.clone(),
                    *private_key,
                    assignments.clone(),
                    *constraint_limit,
                    *variable_limit,
                )
            },
            CallStack::Evaluate(authorization) => CallStack::Evaluate(authorization.replicate()),
            CallStack::Execute(authorization, trace) => CallStack::Execute(authorization.replicate(), trace.clone()),
            CallStack::PackageRun(requests, private_key, assignments) => {
                CallStack::PackageRun(requests.clone(), *private_key, assignments.clone())
            },
        }
    }

    /// Pushes the request to the stack: a stack of requests holds fewer than `MAX_TRANSITIONS`
    /// of them; an authorization appends it.
    pub fn push(&mut self, request: R) -> (r: Result<(), CallStackError>)
        ensures
            push_outcome(*old(self), *final(self), request, r),
    {
        match self {
            CallStack::Authorize(requests, ..) => push_bounded(requests, request),
            CallStack::Synthesize(requests, ..) => push_bounded(requests, request),
            CallStack::CheckDeployment(requests, ..) => push_bounded(requests, request),
            CallStack::PackageRun(requests, ..) => push_bounded(requests, request),
            CallStack::Evaluate(authorization) => {
                authorization.push(request);
                Ok(())
            },
            CallStack::Execute(authorization, ..) => {
                authorization.push(request);
                Ok(())
            },
        }
    }

    /// Pops the request from the stack: the last one of a stack of requests, the next one of an
    /// authorization.
    pub fn pop(&mut self) -> (r: Result<R, CallStackError>)
        ensures
            pop_outcome(*old(self), *final(self), r),
    {
        match self {
            CallStack::Authorize(requests, ..) => pop_last(requests),
            CallStack::Synthesize(requests, ..) => pop_last(requests),
            CallStack::CheckDeployment(requests, ..) => pop_last(requests),
            CallStack::PackageRun(requests, ..) => pop_last(requests),
            CallStack::Evaluate(authorization) => authorization.next(),
            CallStack::Execute(authorization, ..) => authorization.next(),
        }
    }

    /// Peeks at the next request from the stack: a copy of the request that `pop` would return.
    pub fn peek(&mut self) -> (r: Result<R, CallStackError>)
        ensures
            *final(self) == *old(self),
            old(self).requests().len() == 0 ==> r == Err::<R, CallStackError>(CallStackError::NoMoreRequests),
            old(self).requests().len() > 0 && !old(self).is_authorization() ==> (r matches Ok(v) && cloned(
                old(self).requests().last(),
                v,
            )),
            old(self).requests().len() > 0 && old(self).is_authorization() ==> (r matches Ok(v) && cloned(
                old(self).requests()[0],
                v,
            )),
    {
        match self {
            CallStack::Authorize(requests, ..) => peek_last(requests),
            CallStack::Synthesize(requests, ..) => peek_last(requests),
            CallStack::CheckDeployment(requests, ..) => peek_last(requests),
            CallStack::PackageRun(requests, ..) => peek_last(requests),
            CallStack::Evaluate(authorization) => authorization.peek_next(),
            CallStack::Execute(authorization, ..) => authorization.peek_next(),
        }
    }
}

/// What `push` of `request` does: a bounded stack refuses a request beyond the limit of
/// transitions; otherwise the request is appended. The kind of call stack never changes.
pub open spec fn push_outcome<R: Clone, X: Clone, A: Clone, T: Clone>(
    before: CallStack<R, X, A, T>,
    after: CallStack<R, X, A, T>,
    request: R,
    r: Result<(), CallStackError>,
) -> bool {
    &&& after.same_kind(&before)
    &&& match r {
        Ok(()) => after.requests() == before.requests().push(request) && (!before.is_authorization()
            ==> before.requests().len() < MAX_TRANSITIONS),
        Err(e) => e == CallStackError::TooManyRequests && !before.is_authorization()
            && before.requests().len() >= MAX_TRANSITIONS && after.requests() == before.requests(),
    }
}

/// What `pop` does: an authorization hands out its first request, any other call stack its
/// last; with no request left it fails and nothing changes. The kind never changes.
pub open spec fn pop_outcome<R: Clone, X: Clone, A: Clone, T: Clone>(before: CallStack<R, X, A, T>, after: CallStack<R, X, A, T>, r: Result<R, CallStackError>) -> bool {
    &&& after.same_kind(&before)
    &&& before.requests().len() == 0 ==> r == Err::<R, CallStackError>(CallStackError::NoMoreRequests)
        && after.requests() == before.requests()
    &&& before.requests().len() > 0 && !before.is_authorization() ==> r == Ok::<R, CallStackError>(
        before.requests().last(),
    ) && after.requests() == before.requests().drop_last()
    &&& before.requests().len() > 0 && before.is_authorization() ==> r == Ok::<R, CallStackError>(
        before.requests()[0],
    ) && after.requests() == before.requests().drop_first()
}

/// On a call stack other than an authorization, popping right after a successful push gives
/// back the pushed request and the requests from before the push.
pub proof fn law_pop_undoes_push<R: Clone, X: Clone, A: Clone, T: Clone>(
    s0: CallStack<R, X, A, T>,
    s1: CallStack<R, X, A, T>,
    s2: CallStack<R, X, A, T>,
    request: R,
    r: Result<R, CallStackError>,
)
    requires
        !s0.is_authorization(),
        push_outcome(s0, s1, request, Ok(())),
        pop_outcome(s1, s2, r),
    ensures
        r == Ok::<R, CallStackError>(request),
        s2.requests() == s0.requests(),
        s2.same_kind(&s0),
{
    assert(s0.requests().push(request).drop_last() =~= s0.requests());
}

/// An authorization hands out its requests in the order they were pushed: after a push onto
/// a non-empty authorization, a pop gives the same request as before the push, and the
/// pushed request stays last.
pub proof fn law_authorization_first_in_first_out<R: Clone, X: Clone, A: Clone, T: Clone>(
    s0: CallStack<R, X, A, T>,
    s1: CallStack<R, X, A, T>,
    s2: CallStack<R, X, A, T>,
    request: R,
    r: Result<R, CallStackError>,
)
    requires
        s0.is_authorization(),
        s0.requests().len() > 0,
        push_outcome(s0, s1, request, Ok(())),
        pop_outcome(s1, s2, r),
    ensures
        r == Ok::<R, CallStackError>(s0.requests()[0]),
        s2.requests() == s0.requests().drop_first().push(request),
{
    assert(s0.requests().push(request).drop_first() =~= s0.requests().drop_first().push(request));
}

} // verus!

//! The dispatcher: the candidates for a request are tried in the order of
//! their ranks; a candidate that forwards gives way to the next, a guard's
//! failure ends the dispatch, and the first candidate that binds and whose
//! guards pass is the one whose handler is to be invoked.

use crate::guard::{chain_verdict, evaluate, GuardOutcome, GuardOutcomeView};
use crate::matcher::{bind, binding_of, BoundValues, BoundValuesView};
use crate::request::{RequestContext, RequestView};
use crate::table::{is_lookup, lookup_is_unique, Candidate, CandidateView, RouteTable};
use crate::value::{Value, ValueView};
use vstd::prelude::*;

verus! {

/// The status code of a request that no route takes.
pub const NOT_FOUND: u16 = 404;

/// What a handler is invoked with.
#[derive(Clone, Debug, PartialEq, Eq)]
pub struct Invocation {
    /// The handler of the route that takes the request.
    pub handler: u32,
    /// The rank under which the route was tried.
    pub rank: i64,
    /// The route's place in the order of declaration.
    pub order: usize,
    /// The values of the route's path and query parameters.
    pub values: BoundValues,
    /// The values that the route's guards passed on.
    pub guards: Vec<Value>,
}

/// The mathematical model of an [`Invocation`].
pub struct InvocationView {
    pub handler: u32,
    pub rank: i64,
    pub order: usize,
    pub values: BoundValuesView,
    pub guards: Seq<ValueView>,
}

impl DeepView for Invocation {
    type V = InvocationView;

    open spec fn deep_view(&self) -> InvocationView {
        InvocationView {
            handler: self.handler,
            rank: self.rank,
            order: self.order,
            values: self.values@,
            guards: self.guards.deep_view(),
        }
    }
}

impl View for Invocation {
    type V = InvocationView;

    open spec fn view(&self) -> InvocationView {
        self.deep_view()
    }
}

/// What trying one candidate comes to.
#[derive(Clone, Debug, PartialEq, Eq)]
pub enum Attempt {
    /// The candidate takes the request.
    Invoke(Invocation),
    /// The candidate does not apply; the next is to be tried.
    Forward,
    /// A guard of the candidate fails the request with this status code.
    Fail(u16),
}

/// The mathematical model of an [`Attempt`].
pub enum AttemptView {
    Invoke(InvocationView),
    Forward,
    Fail(u16),
}

impl DeepView for Attempt {
    type V = AttemptView;

    open spec fn deep_view(&self) -> AttemptView {
        match *self {
            Attempt::Invoke(inv) => AttemptView::Invoke(inv@),
            Attempt::Forward => AttemptView::Forward,
            Attempt::Fail(code) => AttemptView::Fail(code),
        }
    }
}

impl View for Attempt {
    type V = AttemptView;

    open spec fn view(&self) -> AttemptView {
        self.deep_view()
    }
}

/// How a dispatch ends.
#[derive(Clone, Debug, PartialEq, Eq)]
pub enum Outcome {
    /// A route takes the request: its handler is to be invoked with this.
    Invoking(Invocation),
    /// The request fails with this status code.
    Failed(u16),
}

/// The mathematical model of an [`Outcome`].
pub enum OutcomeView {
    Invoking(InvocationView),
    Failed(u16),
}

impl DeepView for Outcome {
    type V = OutcomeView;

    open spec fn deep_view(&self) -> OutcomeView {
        match *self {
            Outcome::Invoking(inv) => OutcomeView::Invoking(inv@),
            Outcome::Failed(code) => OutcomeView::Failed(code),
        }
    }
}

impl View for Outcome {
    type V = OutcomeView;

    open spec fn view(&self) -> OutcomeView {
        self.deep_view()
    }
}

/// What trying a candidate comes to: it forwards where it cannot be bound
/// to the request or a guard forwards, it fails where a guard fails, and
/// else it takes the request.
pub open spec fn attempt_of(c: CandidateView, ctx: RequestView) -> AttemptView {
    match binding_of(c.route.pattern, c.route.query, ctx) {
        None => AttemptView::Forward,
        Some(values) => match chain_verdict(c.route.guards, ctx) {
            GuardOutcomeView::Forward => AttemptView::Forward,
            GuardOutcomeView::Failure(code) => AttemptView::Fail(code),
            GuardOutcomeView::Success(guards) => AttemptView::Invoke(
                InvocationView {
                    handler: c.route.handler,
                    rank: c.rank,
                    order: c.order,
                    values,
                    guards,
                },
            ),
        },
    }
}

/// How the dispatch over the candidates from position `from` on ends: with
/// what the first candidate that does not forward comes to, and as not found
/// where every candidate forwards or there is none.
pub open spec fn resolve_from(cands: Seq<CandidateView>, ctx: RequestView, from: int)
    -> OutcomeView
    decreases cands.len() - from,
{
    if from < 0 || from >= cands.len() {
        OutcomeView::Failed(NOT_FOUND)
    } else {
        match attempt_of(cands[from], ctx) {
            AttemptView::Forward => resolve_from(cands, ctx, from + 1),
            AttemptView::Fail(code) => OutcomeView::Failed(code),
            AttemptView::Invoke(inv) => OutcomeView::Invoking(inv),
        }
    }
}

/// How the dispatch of a request over a table ends.
pub open spec fn dispatched(table: &RouteTable, ctx: RequestView) -> OutcomeView {
    resolve_from(table.candidates(ctx.method, ctx.path), ctx, 0)
}

/// The first candidate that does not forward decides the dispatch, whatever
/// candidates follow it: its guard's failure is the failure of the request,
/// and a later candidate is never tried in its place.
pub proof fn first_decisive_candidate_decides(
    cands: Seq<CandidateView>,
    ctx: RequestView,
    from: int,
    k: int,
)
    requires
        0 <= from <= k < cands.len(),
        forall|j: int| from <= j < k ==> attempt_of(#[trigger] cands[j], ctx) is Forward,
        attempt_of(cands[k], ctx) !is Forward,
    ensures
        resolve_from(cands, ctx, from) == match attempt_of(cands[k], ctx) {
            AttemptView::Fail(code) => OutcomeView::Failed(code),
            AttemptView::Invoke(inv) => OutcomeView::Invoking(inv),
            AttemptView::Forward => OutcomeView::Failed(NOT_FOUND),
        },
    decreases k - from,
{
    if from < k {
        assert(attempt_of(cands[from], ctx) is Forward);
        first_decisive_candidate_decides(cands, ctx, from + 1, k);
    }
}

/// A guard's failure on the candidate that is tried first ends the dispatch
/// with the guard's status code, even where a later candidate would take
/// the request.
pub proof fn guard_failure_short_circuits(cands: Seq<CandidateView>, ctx: RequestView, code: u16)
    requires
        cands.len() > 0,
        attempt_of(cands[0], ctx) == AttemptView::Fail(code),
    ensures
        resolve_from(cands, ctx, 0) == OutcomeView::Failed(code),
{
}

/// A candidate that forwards is passed over: the dispatch ends as it does
/// over the candidates that follow it.
pub proof fn forward_tries_next(cands: Seq<CandidateView>, ctx: RequestView, from: int)
    requires
        0 <= from < cands.len(),
        attempt_of(cands[from], ctx) is Forward,
    ensures
        resolve_from(cands, ctx, from) == resolve_from(cands, ctx, from + 1),
{
}

/// Where every candidate forwards, or there is none, the request is not
/// found.
pub proof fn exhausted_is_not_found(cands: Seq<CandidateView>, ctx: RequestView, from: int)
    requires
        0 <= from <= cands.len(),
        forall|j: int| from <= j < cands.len() ==> attempt_of(#[trigger] cands[j], ctx) is Forward,
    ensures
        resolve_from(cands, ctx, from) == OutcomeView::Failed(NOT_FOUND),
    decreases cands.len() - from,
{
    if from < cands.len() {
        assert(attempt_of(cands[from], ctx) is Forward);
        exhausted_is_not_found(cands, ctx, from + 1);
    }
}

/// The first candidate from `from` on that does not forward is a guard's
/// failure with this status code.
pub open spec fn fails_with(cands: Seq<CandidateView>, ctx: RequestView, from: int, code: u16)
    -> bool {
    exists|k: int|
        from <= k < cands.len() && #[trigger] attempt_of(cands[k], ctx) == AttemptView::Fail(code)
            && forall|j: int| from <= j < k ==> attempt_of(#[trigger] cands[j], ctx) is Forward
}

/// A request fails with a status code only where a guard fails with it
/// before any candidate takes the request or, for the code of a request
/// that is not found, where every candidate forwards.
pub proof fn failure_comes_from_a_guard_or_exhaustion(
    cands: Seq<CandidateView>,
    ctx: RequestView,
    from: int,
    code: u16,
)
    requires
        0 <= from <= cands.len(),
        resolve_from(cands, ctx, from) == OutcomeView::Failed(code),
    ensures
        fails_with(cands, ctx, from, code) || (code == NOT_FOUND && forall|j: int|
            from <= j < cands.len() ==> attempt_of(#[trigger] cands[j], ctx) is Forward),
    decreases cands.len() - from,
{
    if from < cands.len() {
        match attempt_of(cands[from], ctx) {
            AttemptView::Forward => {
                failure_comes_from_a_guard_or_exhaustion(cands, ctx, from + 1, code);
                if fails_with(cands, ctx, from + 1, code) {
                    let k = choose|k: int|
                        from + 1 <= k < cands.len() && #[trigger] attempt_of(cands[k], ctx)
                            == AttemptView::Fail(code) && forall|j: int|
                            from + 1 <= j < k ==> attempt_of(#[trigger] cands[j], ctx) is Forward;
                    assert forall|j: int| from <= j < k implies attempt_of(
                        #[trigger] cands[j],
                        ctx,
                    ) is Forward by {
                        if j == from {
                        }
                    }
                    assert(attempt_of(cands[k], ctx) == AttemptView::Fail(code));
                } else {
                    assert forall|j: int| from <= j < cands.len() implies attempt_of(
                        #[trigger] cands[j],
                        ctx,
                    ) is Forward by {
                        if j == from {
                        }
                    }
                }
            },
            AttemptView::Fail(c) => {
                assert(attempt_of(cands[from], ctx) == AttemptView::Fail(code));
            },
            AttemptView::Invoke(_) => {},
        }
    }
}

/// The dispatch of a request over a set of registered routes has one
/// outcome: whatever lists of candidates two lookups give for the request,
/// the dispatch over the one ends as the dispatch over the other.
pub proof fn dispatch_has_one_outcome(
    declared: Seq<CandidateView>,
    ctx: RequestView,
    a: Seq<CandidateView>,
    b: Seq<CandidateView>,
)
    requires
        is_lookup(declared, ctx.method, ctx.path, a),
        is_lookup(declared, ctx.method, ctx.path, b),
    ensures
        resolve_from(a, ctx, 0) == resolve_from(b, ctx, 0),
{
    lookup_is_unique(declared, ctx.method, ctx.path, a, b);
}

/// Where a guard of the first candidate for a request fails, the request
/// fails with the guard's status code, whatever routes the table holds
/// besides.
pub proof fn first_candidate_failure_fails_the_request(
    table: &RouteTable,
    ctx: RequestView,
    code: u16,
)
    requires
        table.wf(),
        table.candidates(ctx.method, ctx.path).len() > 0,
        attempt_of(table.candidates(ctx.method, ctx.path)[0], ctx) == AttemptView::Fail(code),
    ensures
        dispatched(table, ctx) == OutcomeView::Failed(code),
{
}

/// Two lists of candidates that agree up to a candidate whose guard fails,
/// with every candidate before it forwarding, end in that failure both:
/// the candidates after it have no part in the outcome.
pub proof fn failure_ignores_later_candidates(
    a: Seq<CandidateView>,
    b: Seq<CandidateView>,
    ctx: RequestView,
    k: int,
    code: u16,
)
    requires
        0 <= k < a.len(),
        k < b.len(),
        forall|j: int| 0 <= j <= k ==> a[j] == b[j],
        forall|j: int| 0 <= j < k ==> attempt_of(#[trigger] a[j], ctx) is Forward,
        attempt_of(a[k], ctx) == AttemptView::Fail(code),
    ensures
        resolve_from(a, ctx, 0) == OutcomeView::Failed(code),
        resolve_from(b, ctx, 0) == OutcomeView::Failed(code),
{
    first_decisive_candidate_decides(a, ctx, 0, k);
    assert forall|j: int| 0 <= j < k implies attempt_of(#[trigger] b[j], ctx) is Forward by {
        assert(a[j] == b[j]);
    }
    first_decisive_candidate_decides(b, ctx, 0, k);
}

/// Dispatching the same request over the same table again gives the same
/// outcome: the outcome is a function of the registered routes and the
/// request, and a dispatch changes neither.
pub proof fn repeated_dispatch_agrees(
    table: &RouteTable,
    ctx: RequestView,
    first: OutcomeView,
    second: OutcomeView,
)
    requires
        first == dispatched(table, ctx),
        second == dispatched(table, ctx),
    ensures
        first == second,
{
}

/// Tries one candidate: binds it to the request, then runs its guards.
pub fn attempt(c: &Candidate, ctx: &RequestContext) -> (out: Attempt)
    ensures
        out@ == attempt_of(c@, ctx@),
{
    let route = c.route();
    let values = match bind(&route.pattern, &route.query, ctx) {
        Some(values) => values,
        None => {
            return Attempt::Forward;
        },
    };
    match evaluate(&route.guards, ctx) {
        GuardOutcome::Forward => Attempt::Forward,
        GuardOutcome::Failure(code) => Attempt::Fail(code),
        GuardOutcome::Success(guards) => Attempt::Invoke(
            Invocation { handler: route.handler, rank: c.rank(), order: c.order(), values, guards },
        ),
    }
}

/// Dispatches a request over a list of candidates, in their order.
pub fn resolve(cands: &Vec<&Candidate>, ctx: &RequestContext) -> (out: Outcome)
    ensures
        out@ == resolve_from(cands.deep_view(), ctx@, 0),
{
    let mut i: usize = 0;
    while i < cands.len()
        invariant
            i <= cands.len(),
            resolve_from(cands.deep_view(), ctx@, 0) == resolve_from(
                cands.deep_view(),
                ctx@,
                i as int,
            ),
        decreases cands.len() - i,
    {
        proof {
            assert(cands.deep_view()[i as int] == cands[i as int]@);
        }
        match attempt(cands[i], ctx) {
            Attempt::Forward => {},
            Attempt::Fail(code) => {
                return Outcome::Failed(code);
            },
            Attempt::Invoke(inv) => {
                return Outcome::Invoking(inv);
            },
        }
        i = i + 1;
    }
    Outcome::Failed(NOT_FOUND)
}

/// Dispatches a request over the routes of a table.
pub fn dispatch(table: &RouteTable, ctx: &RequestContext) -> (out: Outcome)
    requires
        table.wf(),
    ensures
        out@ == dispatched(table, ctx@),
{
    let cands = table.lookup(ctx.method, &ctx.path);
    resolve(&cands, ctx)
}

} // verus!

//! Request guards: checks that a route runs against the request before its
//! handler, each of which passes a value on, forwards or fails.

use crate::request::{Pair, PairView, RequestContext, RequestView};
use crate::text::{eq_ignoring_case, same_ignoring_case, same_text};
use crate::value::{Value, ValueView};
use vstd::prelude::*;
use vstd::string::*;

verus! {

/// What a guard answers where the request lacks what it looks for.
#[derive(Clone, Copy, Debug, PartialEq, Eq, Structural)]
pub enum Absent {
    /// The guard does not apply: a later candidate may take the request.
    Forward,
    /// The request fails with this status code.
    Fail(u16),
}

/// A check on the request that a route declares.
#[derive(Clone, Debug, PartialEq, Eq)]
pub enum Guard {
    /// Passes on the value of the first header of this name, whatever the
    /// case of its letters.
    Header(String, Absent),
    /// Passes on the value of the first cookie of this name.
    Cookie(String, Absent),
}

/// The mathematical model of a [`Guard`].
pub enum GuardView {
    Header(Seq<char>, Absent),
    Cookie(Seq<char>, Absent),
}

impl DeepView for Guard {
    type V = GuardView;

    open spec fn deep_view(&self) -> GuardView {
        match *self {
            Guard::Header(name, absent) => GuardView::Header(name@, absent),
            Guard::Cookie(name, absent) => GuardView::Cookie(name@, absent),
        }
    }
}

impl View for Guard {
    type V = GuardView;

    open spec fn view(&self) -> GuardView {
        self.deep_view()
    }
}

/// What a guard chain makes of a request.
#[derive(Clone, Debug, PartialEq, Eq)]
pub enum GuardOutcome {
    /// Every guard passed; the values that they pass on, in order.
    Success(Vec<Value>),
    /// A guard does not apply to the request.
    Forward,
    /// A guard fails the request with this status code.
    Failure(u16),
}

/// The mathematical model of a [`GuardOutcome`].
pub enum GuardOutcomeView {
    Success(Seq<ValueView>),
    Forward,
    Failure(u16),
}

impl DeepView for GuardOutcome {
    type V = GuardOutcomeView;

    open spec fn deep_view(&self) -> GuardOutcomeView {
        match *self {
            GuardOutcome::Success(values) => GuardOutcomeView::Success(values.deep_view()),
            GuardOutcome::Forward => GuardOutcomeView::Forward,
            GuardOutcome::Failure(code) => GuardOutcomeView::Failure(code),
        }
    }
}

impl View for GuardOutcome {
    type V = GuardOutcomeView;

    open spec fn view(&self) -> GuardOutcomeView {
        self.deep_view()
    }
}

/// The value of the first of `pairs` from position `from` on whose name is
/// `name`; for a header the case of letters does not count.
pub open spec fn first_named(pairs: Seq<PairView>, name: Seq<char>, folding: bool, from: int)
    -> Option<Seq<char>>
    decreases pairs.len() - from,
{
    if from < 0 || from >= pairs.len() {
        None
    } else if named(pairs[from], name, folding) {
        Some(pairs[from].value)
    } else {
        first_named(pairs, name, folding, from + 1)
    }
}

/// The pair has the name, exactly or but for the case of its letters.
pub open spec fn named(pair: PairView, name: Seq<char>, folding: bool) -> bool {
    if folding {
        same_ignoring_case(pair.name, name)
    } else {
        pair.name == name
    }
}

/// What the guard looks for in the request, if the request has it.
pub open spec fn sought(guard: GuardView, ctx: RequestView) -> Option<Seq<char>> {
    match guard {
        GuardView::Header(name, _) => first_named(ctx.headers, name, true, 0),
        GuardView::Cookie(name, _) => first_named(ctx.cookies, name, false, 0),
    }
}

pub open spec fn absent_of(guard: GuardView) -> Absent {
    match guard {
        GuardView::Header(_, absent) => absent,
        GuardView::Cookie(_, absent) => absent,
    }
}

/// What the guards from position `from` on make of the request, `passed`
/// being the values that the guards before them passed on: the guards are
/// taken in order, and the first that does not pass decides.
pub open spec fn chain_from(
    guards: Seq<GuardView>,
    ctx: RequestView,
    from: int,
    passed: Seq<ValueView>,
) -> GuardOutcomeView
    decreases guards.len() - from,
{
    if from < 0 || from >= guards.len() {
        GuardOutcomeView::Success(passed)
    } else {
        match sought(guards[from], ctx) {
            Some(text) => chain_from(guards, ctx, from + 1, passed.push(ValueView::Text(text))),
            None => match absent_of(guards[from]) {
                Absent::Forward => GuardOutcomeView::Forward,
                Absent::Fail(code) => GuardOutcomeView::Failure(code),
            },
        }
    }
}

/// What a guard chain makes of the request.
pub open spec fn chain_verdict(guards: Seq<GuardView>, ctx: RequestView) -> GuardOutcomeView {
    chain_from(guards, ctx, 0, Seq::empty())
}

/// A chain in which the guard at position `k` is the first that does not find
/// what it looks for answers as that guard does, whatever guards follow it.
pub proof fn first_unmet_guard_decides(
    guards: Seq<GuardView>,
    ctx: RequestView,
    from: int,
    passed: Seq<ValueView>,
    k: int,
)
    requires
        0 <= from <= k < guards.len(),
        forall|j: int| from <= j < k ==> sought(#[trigger] guards[j], ctx) is Some,
        sought(guards[k], ctx) is None,
    ensures
        chain_from(guards, ctx, from, passed) == match absent_of(guards[k]) {
            Absent::Forward => GuardOutcomeView::Forward,
            Absent::Fail(code) => GuardOutcomeView::Failure(code),
        },
    decreases k - from,
{
    if from < k {
        assert(sought(guards[from], ctx) is Some);
        first_unmet_guard_decides(
            guards,
            ctx,
            from + 1,
            passed.push(ValueView::Text(sought(guards[from], ctx)->0)),
            k,
        );
    }
}

fn find_named(pairs: &Vec<Pair>, name: &str, folding: bool) -> (found: Option<String>)
    ensures
        crate::decode::text_of(found) == first_named(pairs.deep_view(), name@, folding, 0),
{
    let mut i: usize = 0;
    while i < pairs.len()
        invariant
            i <= pairs.len(),
            first_named(pairs.deep_view(), name@, folding, 0) == first_named(
                pairs.deep_view(),
                name@,
                folding,
                i as int,
            ),
        decreases pairs.len() - i,
    {
        proof {
            assert(pairs.deep_view()[i as int] == pairs[i as int]@);
        }
        let hit = if folding {
            eq_ignoring_case(pairs[i].name.as_str(), name)
        } else {
            same_text(pairs[i].name.as_str(), name)
        };
        if hit {
            return Some(pairs[i].value.clone());
        }
        i = i + 1;
    }
    None
}

/// What the guard looks for in the request.
pub fn seek(guard: &Guard, ctx: &RequestContext) -> (found: Option<String>)
    ensures
        crate::decode::text_of(found) == sought(guard@, ctx@),
{
    match guard {
        Guard::Header(name, _) => find_named(&ctx.headers, name.as_str(), true),
        Guard::Cookie(name, _) => find_named(&ctx.cookies, name.as_str(), false),
    }
}

/// Runs the guards against the request, in order, up to the first that does
/// not pass.
pub fn evaluate(guards: &Vec<Guard>, ctx: &RequestContext) -> (out: GuardOutcome)
    ensures
        out@ == chain_verdict(guards.deep_view(), ctx@),
{
    let mut passed: Vec<Value> = Vec::new();
    let mut i: usize = 0;
    proof {
        assert(passed.deep_view() =~= Seq::<ValueView>::empty());
    }
    while i < guards.len()
        invariant
            i <= guards.len(),
            chain_verdict(guards.deep_view(), ctx@) == chain_from(
                guards.deep_view(),
                ctx@,
                i as int,
                passed.deep_view(),
            ),
        decreases guards.len() - i,
    {
        proof {
            assert(guards.deep_view()[i as int] == guards[i as int]@);
        }
        let ghost before = passed.deep_view();
        match seek(&guards[i], ctx) {
            Some(text) => {
                let ghost model = ValueView::Text(text@);
                passed.push(Value::Text(text));
                proof {
                    assert(passed.deep_view() =~= before.push(model));
                }
            },
            None => {
                let absent = match &guards[i] {
                    Guard::Header(_, absent) => *absent,
                    Guard::Cookie(_, absent) => *absent,
                };
                match absent {
                    Absent::Forward => {
                        return GuardOutcome::Forward;
                    },
                    Absent::Fail(code) => {
                        return GuardOutcome::Failure(code);
                    },
                }
            },
        }
        i = i + 1;
    }
    GuardOutcome::Success(passed)
}

} // verus!

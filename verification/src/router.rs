//! The event router: the dispatch state machine that maps the inbound event
//! stream to handler invocations.
//!
//! The router has a single non-terminal state, listening, entered once per
//! successful bootstrap. For each inbound event it selects the collaborator
//! the event's tag demands, or drops the event silently when no branch
//! handles the tag. A failing handler is absorbed at this boundary: it is
//! turned into a report for the operator and never stops the stream.

use vstd::prelude::*;

use crate::events::GatewayEvent;
use crate::events::HandlerInvocation;
use crate::events::ReactionAction;
use crate::events::spec_tag_of;
use crate::events::tag_is_handled;

verus! {

/// The router's state. Listening is the only state; connection termination
/// ends the process, not the router.
#[derive(Clone, Copy, PartialEq, Eq, Structural, Debug)]
pub enum RouterState {
    Listening,
}

/// What a handler invocation came back with: success, or a failure code the
/// caller derived from the handler's error.
#[derive(Clone, Copy, PartialEq, Eq, Structural, Debug)]
pub enum HandlerOutcome {
    Success,
    Failure { code: u64 },
}

/// An operator-visible report of one absorbed handler failure.
#[derive(Clone, Copy, PartialEq, Eq, Structural, Debug)]
pub struct FailureReport {
    pub invocation: HandlerInvocation,
    pub code: u64,
}

/// The dispatch decision for a single event: which collaborator the router
/// invokes, or nothing for an unhandled tag.
pub open spec fn spec_route(e: GatewayEvent) -> Option<HandlerInvocation> {
    match e {
        GatewayEvent::MessageCreated { message } => Some(
            HandlerInvocation::Moderation { message },
        ),
        GatewayEvent::ReactionAdded { reaction } => Some(
            HandlerInvocation::Reaction { reaction, action: ReactionAction::Added },
        ),
        GatewayEvent::ReactionRemoved { reaction } => Some(
            HandlerInvocation::Reaction { reaction, action: ReactionAction::Removed },
        ),
        GatewayEvent::Other { .. } => None,
    }
}

/// The invocations a delivery of events gives rise to, in arrival order:
/// one per handled event, none for an unhandled tag.
pub open spec fn dispatch_plan(events: Seq<GatewayEvent>) -> Seq<HandlerInvocation>
    decreases events.len(),
{
    if events.len() == 0 {
        Seq::empty()
    } else {
        (match spec_route(events.first()) {
            Some(inv) => seq![inv],
            None => Seq::empty(),
        }) + dispatch_plan(events.drop_first())
    }
}

/// How many events of a delivery carry a handled tag.
pub open spec fn handled_count(events: Seq<GatewayEvent>) -> nat
    decreases events.len(),
{
    if events.len() == 0 {
        0
    } else {
        (if tag_is_handled(spec_tag_of(events.first())) {
            1nat
        } else {
            0nat
        }) + handled_count(events.drop_first())
    }
}

/// The report the router emits for one invocation's outcome: a failure is
/// converted to a report, a success to nothing.
pub open spec fn spec_report_for(invocation: HandlerInvocation, outcome: HandlerOutcome) -> Option<
    FailureReport,
> {
    match outcome {
        HandlerOutcome::Failure { code } => Some(FailureReport { invocation, code }),
        HandlerOutcome::Success => None,
    }
}

/// The reports a run emits, given the invocations in dispatch order and the
/// outcome each one came back with.
pub open spec fn spec_reports(
    invs: Seq<HandlerInvocation>,
    outs: Seq<HandlerOutcome>,
) -> Seq<FailureReport>
    decreases outs.len(),
{
    if outs.len() == 0 || invs.len() == 0 {
        Seq::empty()
    } else {
        (match spec_report_for(invs.first(), outs.first()) {
            Some(rep) => seq![rep],
            None => Seq::empty(),
        }) + spec_reports(invs.drop_first(), outs.drop_first())
    }
}

/// Routes one inbound event: the matching collaborator invocation, or `None`
/// for a tag outside the handled set.
pub fn route(e: &GatewayEvent) -> (r: Option<HandlerInvocation>)
    ensures
        r == spec_route(*e),
{
    match e {
        GatewayEvent::MessageCreated { message } => Some(
            HandlerInvocation::Moderation { message: *message },
        ),
        GatewayEvent::ReactionAdded { reaction } => Some(
            HandlerInvocation::Reaction { reaction: *reaction, action: ReactionAction::Added },
        ),
        GatewayEvent::ReactionRemoved { reaction } => Some(
            HandlerInvocation::Reaction { reaction: *reaction, action: ReactionAction::Removed },
        ),
        GatewayEvent::Other { .. } => None,
    }
}

/// Absorbs one handler outcome at the dispatch boundary: the router stays
/// listening whatever came back, and a failure becomes a report, never an
/// error of the router's own.
pub fn react_to_outcome(
    state: RouterState,
    invocation: &HandlerInvocation,
    outcome: &HandlerOutcome,
) -> (r: (RouterState, Option<FailureReport>))
    ensures
        r.0 is Listening,
        r.1 == spec_report_for(*invocation, *outcome),
{
    let _ = state;
    match outcome {
        HandlerOutcome::Failure { code } => (
            RouterState::Listening,
            Some(FailureReport { invocation: *invocation, code: *code }),
        ),
        HandlerOutcome::Success => (RouterState::Listening, None),
    }
}

/// Routes a whole delivery of events, in arrival order.
pub fn route_events(events: &Vec<GatewayEvent>) -> (r: Vec<HandlerInvocation>)
    ensures
        r@ == dispatch_plan(events@),
{
    let mut out: Vec<HandlerInvocation> = Vec::new();
    let mut i: usize = 0;
    proof {
        assert(events@.skip(0) =~= events@);
    }
    while i < events.len()
        invariant
            i <= events@.len(),
            dispatch_plan(events@) == out@ + dispatch_plan(events@.skip(i as int)),
        decreases events@.len() - i,
    {
        proof {
            let rest = events@.skip(i as int);
            assert(rest.first() == events@[i as int]);
            assert(rest.drop_first() =~= events@.skip(i as int + 1));
            assert(dispatch_plan(rest) == (match spec_route(events@[i as int]) {
                Some(inv) => seq![inv],
                None => Seq::<HandlerInvocation>::empty(),
            }) + dispatch_plan(events@.skip(i as int + 1)));
        }
        match route(&events[i]) {
            Some(inv) => {
                out.push(inv);
            },
            None => {
            },
        }
        proof {
            assert(dispatch_plan(events@) == out@ + dispatch_plan(events@.skip(i as int + 1)));
        }
        i += 1;
    }
    proof {
        assert(events@.skip(events@.len() as int) =~= Seq::<GatewayEvent>::empty());
        assert(out@ =~= out@ + Seq::<HandlerInvocation>::empty());
    }
    out
}

/// Collects the failure reports for a run: one per failed outcome, paired
/// with the invocation it belongs to, in dispatch order.
pub fn collect_reports(
    invs: &Vec<HandlerInvocation>,
    outs: &Vec<HandlerOutcome>,
) -> (r: Vec<FailureReport>)
    requires
        invs@.len() == outs@.len(),
    ensures
        r@ == spec_reports(invs@, outs@),
{
    let mut out: Vec<FailureReport> = Vec::new();
    let mut i: usize = 0;
    proof {
        assert(invs@.skip(0) =~= invs@);
        assert(outs@.skip(0) =~= outs@);
    }
    while i < outs.len()
        invariant
            i <= outs@.len(),
            invs@.len() == outs@.len(),
            spec_reports(invs@, outs@) == out@ + spec_reports(
                invs@.skip(i as int),
                outs@.skip(i as int),
            ),
        decreases outs@.len() - i,
    {
        proof {
            let ri = invs@.skip(i as int);
            let ro = outs@.skip(i as int);
            assert(ri.first() == invs@[i as int]);
            assert(ro.first() == outs@[i as int]);
            assert(ri.drop_first() =~= invs@.skip(i as int + 1));
            assert(ro.drop_first() =~= outs@.skip(i as int + 1));
            assert(spec_reports(ri, ro) == (match spec_report_for(
                invs@[i as int],
                outs@[i as int],
            ) {
                Some(rep) => seq![rep],
                None => Seq::<FailureReport>::empty(),
            }) + spec_reports(invs@.skip(i as int + 1), outs@.skip(i as int + 1)));
        }
        match react_to_outcome(RouterState::Listening, &invs[i], &outs[i]) {
            (_, Some(rep)) => {
                out.push(rep);
            },
            (_, None) => {
            },
        }
        proof {
            assert(spec_reports(invs@, outs@) == out@ + spec_reports(
                invs@.skip(i as int + 1),
                outs@.skip(i as int + 1),
            ));
        }
        i += 1;
    }
    proof {
        assert(invs@.skip(invs@.len() as int) =~= Seq::<HandlerInvocation>::empty());
        assert(out@ =~= out@ + Seq::<FailureReport>::empty());
    }
    out
}

/// What one listening run over a finished delivery produced.
pub struct DispatchLog {
    pub invocations: Vec<HandlerInvocation>,
    pub reports: Vec<FailureReport>,
    pub state: RouterState,
}

/// Replays a finished delivery: the invocations the router issued for the
/// events, in arrival order, and the reports their outcomes produced. The
/// invocations are determined by the events alone — the outcomes, failures
/// included, are no input to the plan — and the router is still listening
/// afterwards.
pub fn dispatch_sequence(
    events: &Vec<GatewayEvent>,
    outcomes: &Vec<HandlerOutcome>,
) -> (log: DispatchLog)
    requires
        outcomes@.len() == dispatch_plan(events@).len(),
    ensures
        log.invocations@ == dispatch_plan(events@),
        log.reports@ == spec_reports(dispatch_plan(events@), outcomes@),
        log.state is Listening,
{
    let invocations = route_events(events);
    let reports = collect_reports(&invocations, outcomes);
    DispatchLog { invocations, reports, state: RouterState::Listening }
}

/// An event whose tag lies outside the handled set is silently dropped: the
/// router derives no invocation from it, and no error either — dropping is
/// the explicit default branch, never a failure.
pub proof fn lemma_unhandled_event_ignored(e: GatewayEvent)
    ensures
        !tag_is_handled(spec_tag_of(e)) <==> spec_route(e) is None,
{
}

/// Dispatch is total and one-to-one over handled events: a delivery in which
/// every event carries a handled tag gives exactly one invocation per event,
/// the one its tag selects, in arrival order.
pub proof fn lemma_one_invocation_per_handled_event(events: Seq<GatewayEvent>)
    requires
        forall|i: int| 0 <= i < events.len() ==> tag_is_handled(spec_tag_of(#[trigger] events[i])),
    ensures
        dispatch_plan(events).len() == events.len(),
        forall|i: int| 0 <= i < events.len() ==> Some(#[trigger] dispatch_plan(events)[i])
            == spec_route(events[i]),
    decreases events.len(),
{
    if events.len() > 0 {
        let rest = events.drop_first();
        assert(forall|i: int| 0 <= i < rest.len() ==> #[trigger] rest[i] == events[i + 1]);
        lemma_one_invocation_per_handled_event(rest);
        assert(spec_route(events.first()) is Some);
        assert forall|i: int| 0 <= i < events.len() implies Some(
            #[trigger] dispatch_plan(events)[i],
        ) == spec_route(events[i]) by {
            if i > 0 {
                assert(dispatch_plan(events)[i] == dispatch_plan(rest)[i - 1]);
            }
        }
    }
}

/// Every delivery yields at most one invocation per event: the plan is as
/// long as the number of handled events, never longer than the delivery.
pub proof fn lemma_plan_counts_handled(events: Seq<GatewayEvent>)
    ensures
        dispatch_plan(events).len() == handled_count(events),
        handled_count(events) <= events.len(),
    decreases events.len(),
{
    if events.len() > 0 {
        lemma_plan_counts_handled(events.drop_first());
    }
}

/// The plan of a concatenated delivery is the concatenation of the plans.
pub proof fn lemma_plan_append(a: Seq<GatewayEvent>, b: Seq<GatewayEvent>)
    ensures
        dispatch_plan(a + b) == dispatch_plan(a) + dispatch_plan(b),
    decreases a.len(),
{
    if a.len() == 0 {
        assert(a + b =~= b);
        assert(dispatch_plan(a) + dispatch_plan(b) =~= dispatch_plan(b));
    } else {
        assert((a + b).first() == a.first());
        assert((a + b).drop_first() =~= a.drop_first() + b);
        lemma_plan_append(a.drop_first(), b);
        assert((match spec_route(a.first()) {
            Some(inv) => seq![inv],
            None => Seq::<HandlerInvocation>::empty(),
        }) + (dispatch_plan(a.drop_first()) + dispatch_plan(b)) =~= dispatch_plan(a)
            + dispatch_plan(b));
    }
}

/// A handler failure on one event never suppresses dispatch of the events
/// after it. The invocations of a run are determined by the events alone —
/// outcomes are no input to `dispatch_plan` — and the plan splits at any
/// point `k` into the plan up to `k` followed by the plan of the remainder,
/// whatever the handlers of the first `k` events returned.
pub proof fn lemma_failure_does_not_block_dispatch(events: Seq<GatewayEvent>, k: int)
    requires
        0 <= k <= events.len(),
    ensures
        dispatch_plan(events) == dispatch_plan(events.take(k)) + dispatch_plan(events.skip(k)),
{
    assert(events =~= events.take(k) + events.skip(k));
    lemma_plan_append(events.take(k), events.skip(k));
}

} // verus!

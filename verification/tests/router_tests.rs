use botcore::events::EventTag;
use botcore::events::GatewayEvent;
use botcore::events::HandlerInvocation;
use botcore::events::MessagePayload;
use botcore::events::ReactionAction;
use botcore::events::ReactionPayload;
use botcore::events::is_handled;
use botcore::events::tag_of;
use botcore::router::HandlerOutcome;
use botcore::router::RouterState;
use botcore::router::dispatch_sequence;
use botcore::router::react_to_outcome;
use botcore::router::route;
use botcore::router::route_events;

fn message(id: u64) -> MessagePayload {
    MessagePayload { id, channel_id: 77, author_id: 1001 }
}

fn reaction(message_id: u64) -> ReactionPayload {
    ReactionPayload { message_id, channel_id: 77, user_id: 2002, emoji: 9 }
}

#[test]
fn message_event_routes_to_moderation() {
    let m = message(5);
    let r = route(&GatewayEvent::MessageCreated { message: m });
    assert_eq!(r, Some(HandlerInvocation::Moderation { message: m }));
}

#[test]
fn reaction_events_route_to_reaction_management() {
    let p = reaction(42);
    assert_eq!(
        route(&GatewayEvent::ReactionAdded { reaction: p }),
        Some(HandlerInvocation::Reaction { reaction: p, action: ReactionAction::Added })
    );
    assert_eq!(
        route(&GatewayEvent::ReactionRemoved { reaction: p }),
        Some(HandlerInvocation::Reaction { reaction: p, action: ReactionAction::Removed })
    );
}

#[test]
fn unhandled_event_is_silently_dropped() {
    // Unhandled tags produce no invocation and no error, whatever kind the
    // platform reported.
    assert_eq!(route(&GatewayEvent::Other { kind: 0 }), None);
    assert_eq!(route(&GatewayEvent::Other { kind: 314 }), None);
    assert!(!is_handled(tag_of(&GatewayEvent::Other { kind: 314 })));
    assert_eq!(tag_of(&GatewayEvent::Other { kind: 314 }), EventTag::Other);
}

#[test]
fn one_invocation_per_handled_event_in_arrival_order() {
    let events = vec![
        GatewayEvent::ReactionAdded { reaction: reaction(1) },
        GatewayEvent::MessageCreated { message: message(2) },
        GatewayEvent::ReactionRemoved { reaction: reaction(3) },
    ];
    let plan = route_events(&events);
    assert_eq!(plan.len(), 3);
    assert_eq!(
        plan[0],
        HandlerInvocation::Reaction { reaction: reaction(1), action: ReactionAction::Added }
    );
    assert_eq!(plan[1], HandlerInvocation::Moderation { message: message(2) });
    assert_eq!(
        plan[2],
        HandlerInvocation::Reaction { reaction: reaction(3), action: ReactionAction::Removed }
    );
}

#[test]
fn failure_is_reported_and_router_keeps_listening() {
    let inv = HandlerInvocation::Moderation { message: message(8) };
    let (state, report) = react_to_outcome(
        RouterState::Listening,
        &inv,
        &HandlerOutcome::Failure { code: 13 },
    );
    assert_eq!(state, RouterState::Listening);
    let report = report.expect("a failure must be reported");
    assert_eq!(report.invocation, inv);
    assert_eq!(report.code, 13);

    let (state, report) = react_to_outcome(RouterState::Listening, &inv, &HandlerOutcome::Success);
    assert_eq!(state, RouterState::Listening);
    assert_eq!(report, None);
}

#[test]
fn always_failing_handler_does_not_block_later_events() {
    // Every handler invocation fails; each event is dispatched regardless.
    let events = vec![
        GatewayEvent::MessageCreated { message: message(1) },
        GatewayEvent::MessageCreated { message: message(2) },
        GatewayEvent::ReactionAdded { reaction: reaction(3) },
    ];
    let outcomes = vec![
        HandlerOutcome::Failure { code: 1 },
        HandlerOutcome::Failure { code: 2 },
        HandlerOutcome::Failure { code: 3 },
    ];
    let log = dispatch_sequence(&events, &outcomes);
    assert_eq!(log.state, RouterState::Listening);
    assert_eq!(log.invocations.len(), 3);
    assert_eq!(log.invocations[1], HandlerInvocation::Moderation { message: message(2) });
    assert_eq!(log.invocations[2], HandlerInvocation::Reaction {
        reaction: reaction(3),
        action: ReactionAction::Added,
    });
    assert_eq!(log.reports.len(), 3);
    assert_eq!(log.reports[2].code, 3);
}

#[test]
fn failure_on_one_event_leaves_the_plan_unchanged() {
    let events = vec![
        GatewayEvent::MessageCreated { message: message(1) },
        GatewayEvent::ReactionAdded { reaction: reaction(2) },
    ];
    let all_fail = vec![HandlerOutcome::Failure { code: 9 }, HandlerOutcome::Failure { code: 9 }];
    let all_ok = vec![HandlerOutcome::Success, HandlerOutcome::Success];
    let log_fail = dispatch_sequence(&events, &all_fail);
    let log_ok = dispatch_sequence(&events, &all_ok);
    assert_eq!(log_fail.invocations, log_ok.invocations);
    assert_eq!(log_ok.reports.len(), 0);
    assert_eq!(log_fail.reports.len(), 2);
}

#[test]
fn end_to_end_delivery_dispatches_exactly_the_handled_events() {
    // Delivery: message M1, reaction R1 added, reaction R1 removed, other X.
    let m1 = message(100);
    let r1 = reaction(100);
    let events = vec![
        GatewayEvent::MessageCreated { message: m1 },
        GatewayEvent::ReactionAdded { reaction: r1 },
        GatewayEvent::ReactionRemoved { reaction: r1 },
        GatewayEvent::Other { kind: 500 },
    ];
    let plan = route_events(&events);
    assert_eq!(plan, vec![
        HandlerInvocation::Moderation { message: m1 },
        HandlerInvocation::Reaction { reaction: r1, action: ReactionAction::Added },
        HandlerInvocation::Reaction { reaction: r1, action: ReactionAction::Removed },
    ]);

    let outcomes = vec![HandlerOutcome::Success, HandlerOutcome::Success, HandlerOutcome::Success];
    let log = dispatch_sequence(&events, &outcomes);
    assert_eq!(log.invocations, plan);
    assert_eq!(log.reports.len(), 0);
    assert_eq!(log.state, RouterState::Listening);
}

use revolut_trading::state::{
    order_filled, poll_wait, step, BotAction, BotEvent, BotState, Phase, PollWait, Retry, Side,
};

fn state(cycle: u32, phase: Phase, order_id: &str) -> BotState {
    BotState { cycle, phase, order_id: order_id.to_string() }
}

#[test]
fn fresh_state_starts_buying_in_cycle_one() {
    let s = BotState::fresh();
    assert_eq!(s.cycle, 1);
    assert_eq!(s.phase, Phase::Buying);
    assert!(s.order_id.is_empty());
}

#[test]
fn resume_without_order_places_one() {
    let (s, a) = step(state(3, Phase::Buying, ""), BotEvent::Resume);
    assert!(matches!(a, BotAction::PlaceOrder(Side::Buy)));
    assert_eq!(s.cycle, 3);
    let (_, a) = step(state(3, Phase::Selling, ""), BotEvent::Resume);
    assert!(matches!(a, BotAction::PlaceOrder(Side::Sell)));
}

#[test]
fn resume_with_order_waits_on_it() {
    let (s, a) = step(state(2, Phase::Selling, "abc"), BotEvent::Resume);
    match a {
        BotAction::AwaitFill { order_id, save_first } => {
            assert_eq!(order_id, "abc");
            assert!(!save_first);
        }
        _ => panic!("expected a wait"),
    }
    assert_eq!(s.order_id, "abc");
}

#[test]
fn full_cycle_returns_to_buying() {
    let mut s = BotState::fresh();
    let events = vec![
        BotEvent::Resume,
        BotEvent::OrderPlaced("b1".to_string()),
        BotEvent::Filled,
        BotEvent::Resume,
        BotEvent::OrderPlaced("s1".to_string()),
        BotEvent::Filled,
    ];
    let mut actions = Vec::new();
    for e in events {
        let (next, a) = step(s, e);
        s = next;
        actions.push(a);
    }
    assert!(matches!(actions[0], BotAction::PlaceOrder(Side::Buy)));
    assert!(matches!(&actions[1], BotAction::AwaitFill { order_id, save_first: true } if order_id == "b1"));
    assert!(matches!(actions[2], BotAction::SaveAndContinue { new_cycle: false }));
    assert!(matches!(actions[3], BotAction::PlaceOrder(Side::Sell)));
    assert!(matches!(&actions[4], BotAction::AwaitFill { order_id, save_first: true } if order_id == "s1"));
    assert!(matches!(actions[5], BotAction::SaveAndContinue { new_cycle: true }));
    assert_eq!(s.cycle, 2);
    assert_eq!(s.phase, Phase::Buying);
    assert!(s.order_id.is_empty());
}

#[test]
fn shutdown_keeps_state() {
    let (s, a) = step(state(5, Phase::Selling, "x"), BotEvent::ShutdownRequested);
    assert!(matches!(a, BotAction::Shutdown));
    assert_eq!((s.cycle, s.phase, s.order_id.as_str()), (5, Phase::Selling, "x"));
}

#[test]
fn cycle_wraps_at_u32_max() {
    let (s, _) = step(state(u32::MAX, Phase::Selling, "x"), BotEvent::Filled);
    assert_eq!(s.cycle, 0);
}

#[test]
fn order_is_filled_once_inactive() {
    let active = vec!["a".to_string(), "b".to_string()];
    assert!(!order_filled(&active, "a"));
    assert!(order_filled(&active, "c"));
    assert!(order_filled(&Vec::new(), "a"));
}

#[test]
fn waiting_decisions() {
    assert_eq!(poll_wait(true, true), PollWait::Stop);
    assert_eq!(poll_wait(true, false), PollWait::Stop);
    assert_eq!(poll_wait(false, true), PollWait::Sleep);
    assert_eq!(poll_wait(false, false), PollWait::Recheck);
}

#[test]
fn retry_waits_two_then_four_seconds_then_gives_up() {
    let r1 = Retry::new();
    assert_eq!(r1.attempt(), 1);
    let (w1, r2) = r1.after_failure().unwrap();
    assert_eq!(w1, 2);
    assert_eq!(r2.attempt(), 2);
    let (w2, r3) = r2.after_failure().unwrap();
    assert_eq!(w2, 4);
    assert_eq!(r3.attempt(), 3);
    assert!(r3.after_failure().is_none());
}

#[test]
fn cycle_counts_completed_sells() {
    let mut s = BotState::fresh();
    let mut fills = 0u32;
    for round in 0..5 {
        for e in [
            BotEvent::Resume,
            BotEvent::OrderPlaced(format!("id{}", round)),
            BotEvent::Resume,
            BotEvent::Filled,
        ] {
            if matches!(e, BotEvent::Filled) {
                fills += 1;
            }
            let (next, _) = step(s, e);
            s = next;
        }
        assert_eq!(s.cycle, 1 + fills / 2);
        assert_eq!(s.phase == Phase::Buying, fills % 2 == 0);
    }
}

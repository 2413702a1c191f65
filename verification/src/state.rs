//! The trading bot's persistent state and the decisions of its buy/sell
//! cycle: which order to place, when to wait for a fill, how a fill moves the
//! cycle on, and how polling and retrying proceed.

use vstd::prelude::*;

use vstd::arithmetic::power2::{lemma2_to64, lemma_pow2_unfold, pow2};

use crate::text::str_eq;

verus! {

/// The half of the cycle the bot is in.
#[derive(Debug, Clone, Copy, PartialEq, Eq, Structural)]
pub enum Phase {
    Buying,
    Selling,
}

/// What the bot saves between runs: the cycle number, the phase, and the
/// client id of the order it waits on (empty while it has none).
#[derive(Debug, Clone)]
pub struct BotState {
    pub cycle: u32,
    pub phase: Phase,
    pub order_id: String,
}

/// The bot state as values.
pub struct BotStateView {
    pub cycle: u32,
    pub phase: Phase,
    pub order_id: Seq<char>,
}

impl View for BotState {
    type V = BotStateView;

    open spec fn view(&self) -> BotStateView {
        BotStateView { cycle: self.cycle, phase: self.phase, order_id: self.order_id@ }
    }
}

/// The state of a bot that has not started: cycle 1, buying, no order.
pub open spec fn fresh_state() -> BotStateView {
    BotStateView { cycle: 1, phase: Phase::Buying, order_id: Seq::empty() }
}

impl BotState {
    /// The state to start from when nothing was saved.
    pub fn fresh() -> (res: Self)
        ensures
            res@ == fresh_state(),
    {
        BotState { cycle: 1, phase: Phase::Buying, order_id: String::new() }
    }
}

/// The side of an order.
#[derive(Debug, Clone, Copy, PartialEq, Eq, Structural)]
pub enum Side {
    Buy,
    Sell,
}

/// The side that the bot trades on in a phase.
pub open spec fn phase_side(phase: Phase) -> Side {
    match phase {
        Phase::Buying => Side::Buy,
        Phase::Selling => Side::Sell,
    }
}

impl Side {
    /// The side as the API names it: `buy` or `sell`.
    pub fn api_name(&self) -> (res: &'static str)
        ensures
            *self == Side::Buy ==> res@ == "buy"@,
            *self == Side::Sell ==> res@ == "sell"@,
    {
        match self {
            Side::Buy => "buy",
            Side::Sell => "sell",
        }
    }

    /// The currency whose whole available balance an order of this side
    /// spends: USD for a buy, LTC for a sell.
    pub fn balance_currency(&self) -> (res: &'static str)
        ensures
            *self == Side::Buy ==> res@ == "USD"@,
            *self == Side::Sell ==> res@ == "LTC"@,
    {
        match self {
            Side::Buy => "USD",
            Side::Sell => "LTC",
        }
    }
}

/// What happened since the bot's last decision.
pub enum BotEvent {
    /// The bot is (again) at the point of deciding what its phase needs.
    Resume,
    /// The order with this client id was placed.
    OrderPlaced(String),
    /// The order that the bot waited on was filled.
    Filled,
    /// A shutdown was asked for while the bot waited.
    ShutdownRequested,
}

/// A bot event as values.
pub enum BotEventView {
    Resume,
    OrderPlaced(Seq<char>),
    Filled,
    ShutdownRequested,
}

impl View for BotEvent {
    type V = BotEventView;

    open spec fn view(&self) -> BotEventView {
        match self {
            BotEvent::Resume => BotEventView::Resume,
            BotEvent::OrderPlaced(id) => BotEventView::OrderPlaced(id@),
            BotEvent::Filled => BotEventView::Filled,
            BotEvent::ShutdownRequested => BotEventView::ShutdownRequested,
        }
    }
}

/// What the bot does next.
pub enum BotAction {
    /// Place an order of this side for the whole available balance.
    PlaceOrder(Side),
    /// Wait until the order with this client id is filled, saving the state
    /// first where `save_first` holds.
    AwaitFill { order_id: String, save_first: bool },
    /// Save the state and decide again; `new_cycle` where a cycle has just
    /// begun.
    SaveAndContinue { new_cycle: bool },
    /// Cancel all orders, forget the saved state, and stop.
    Shutdown,
}

/// A bot action as values.
pub enum BotActionView {
    PlaceOrder(Side),
    AwaitFill { order_id: Seq<char>, save_first: bool },
    SaveAndContinue { new_cycle: bool },
    Shutdown,
}

impl View for BotAction {
    type V = BotActionView;

    open spec fn view(&self) -> BotActionView {
        match self {
            BotAction::PlaceOrder(side) => BotActionView::PlaceOrder(*side),
            BotAction::AwaitFill { order_id, save_first } => BotActionView::AwaitFill {
                order_id: order_id@,
                save_first: *save_first,
            },
            BotAction::SaveAndContinue { new_cycle } => BotActionView::SaveAndContinue {
                new_cycle: *new_cycle,
            },
            BotAction::Shutdown => BotActionView::Shutdown,
        }
    }
}

/// The cycle number after `cycle`, wrapping as the released program's
/// `u32` addition does.
pub open spec fn next_cycle(cycle: u32) -> u32 {
    if cycle == u32::MAX {
        0
    } else {
        (cycle + 1) as u32
    }
}

/// One transition of the bot: its next state and what it does, given what
/// happened.
pub open spec fn bot_step(s: BotStateView, e: BotEventView) -> (BotStateView, BotActionView) {
    match e {
        BotEventView::Resume => {
            if s.order_id.len() == 0 {
                (s, BotActionView::PlaceOrder(phase_side(s.phase)))
            } else {
                (s, BotActionView::AwaitFill { order_id: s.order_id, save_first: false })
            }
        },
        BotEventView::OrderPlaced(id) => (
            BotStateView { order_id: id, ..s },
            BotActionView::AwaitFill { order_id: id, save_first: true },
        ),
        BotEventView::Filled => match s.phase {
            Phase::Buying => (
                BotStateView { cycle: s.cycle, phase: Phase::Selling, order_id: Seq::empty() },
                BotActionView::SaveAndContinue { new_cycle: false },
            ),
            Phase::Selling => (
                BotStateView {
                    cycle: next_cycle(s.cycle),
                    phase: Phase::Buying,
                    order_id: Seq::empty(),
                },
                BotActionView::SaveAndContinue { new_cycle: true },
            ),
        },
        BotEventView::ShutdownRequested => (s, BotActionView::Shutdown),
    }
}

/// The bot's next state and action after `event`.
pub fn step(state: BotState, event: BotEvent) -> (res: (BotState, BotAction))
    ensures
        (res.0@, res.1@) == bot_step(state@, event@),
{
    match event {
        BotEvent::Resume => {
            if state.order_id.as_str().is_empty() {
                let side = match state.phase {
                    Phase::Buying => Side::Buy,
                    Phase::Selling => Side::Sell,
                };
                (state, BotAction::PlaceOrder(side))
            } else {
                let order_id = state.order_id.clone();
                (state, BotAction::AwaitFill { order_id, save_first: false })
            }
        },
        BotEvent::OrderPlaced(id) => {
            let order_id = id.clone();
            (
                BotState { cycle: state.cycle, phase: state.phase, order_id: id },
                BotAction::AwaitFill { order_id, save_first: true },
            )
        },
        BotEvent::Filled => match state.phase {
            Phase::Buying => (
                BotState { cycle: state.cycle, phase: Phase::Selling, order_id: String::new() },
                BotAction::SaveAndContinue { new_cycle: false },
            ),
            Phase::Selling => (
                BotState {
                    cycle: state.cycle.wrapping_add(1),
                    phase: Phase::Buying,
                    order_id: String::new(),
                },
                BotAction::SaveAndContinue { new_cycle: true },
            ),
        },
        BotEvent::ShutdownRequested => (state, BotAction::Shutdown),
    }
}


/// The state after the events `events`, in order, starting from `s`.
pub open spec fn run(s: BotStateView, events: Seq<BotEventView>) -> BotStateView
    decreases events.len(),
{
    if events.len() == 0 {
        s
    } else {
        run(bot_step(s, events[0]).0, events.drop_first())
    }
}

/// The number of fills among `events`.
pub open spec fn fill_count(events: Seq<BotEventView>) -> nat
    decreases events.len(),
{
    if events.len() == 0 {
        0
    } else {
        (if events[0] is Filled {
            1nat
        } else {
            0nat
        }) + fill_count(events.drop_first())
    }
}

/// The other phase.
pub open spec fn other_phase(p: Phase) -> Phase {
    match p {
        Phase::Buying => Phase::Selling,
        Phase::Selling => Phase::Buying,
    }
}

/// How many of `fills` fills, made from `phase` on, complete a sell.
pub open spec fn sell_fills(phase: Phase, fills: nat) -> nat {
    match phase {
        Phase::Buying => fills / 2,
        Phase::Selling => (fills + 1) / 2,
    }
}

proof fn lemma_run_counts_fills(s: BotStateView, events: Seq<BotEventView>)
    requires
        s.cycle + sell_fills(s.phase, fill_count(events)) <= u32::MAX,
    ensures
        run(s, events).phase == if fill_count(events) % 2 == 0 {
            s.phase
        } else {
            other_phase(s.phase)
        },
        run(s, events).cycle == s.cycle + sell_fills(s.phase, fill_count(events)),
    decreases events.len(),
{
    if events.len() > 0 {
        let next = bot_step(s, events[0]).0;
        let rest = events.drop_first();
        let n = fill_count(events);
        if events[0] is Filled {
            assert(fill_count(rest) == n - 1);
        } else {
            assert(fill_count(rest) == n);
        }
        lemma_run_counts_fills(next, rest);
    }
}

/// Whatever happens, the phase alternates with each fill and the cycle
/// number grows by one with each completed sell: after `n` fills from the
/// fresh state the bot is buying exactly when `n` is even, in cycle
/// `1 + n / 2` (as long as that fits in a `u32`).
pub proof fn lemma_cycle_counts_completed_sells(events: Seq<BotEventView>)
    requires
        1 + fill_count(events) / 2 <= u32::MAX,
    ensures
        run(fresh_state(), events).cycle == 1 + fill_count(events) / 2,
        (run(fresh_state(), events).phase == Phase::Buying) <==> fill_count(events) % 2 == 0,
{
    lemma_run_counts_fills(fresh_state(), events);
}

/// The bot places an order only when it decides afresh and has no pending
/// order; with a pending order it waits on that very order instead.
pub proof fn lemma_orders_placed_only_without_pending(s: BotStateView, e: BotEventView)
    ensures
        bot_step(s, e).1 is PlaceOrder ==> e is Resume && s.order_id.len() == 0,
        bot_step(s, e).1 matches BotActionView::PlaceOrder(side) ==> side == phase_side(s.phase),
        e is Resume && s.order_id.len() != 0 ==> bot_step(s, e).1 == (BotActionView::AwaitFill {
            order_id: s.order_id,
            save_first: false,
        }),
{
}

/// A fill always leaves the bot without a pending order, in the other
/// phase, and saves the state; a placed order is saved before it is waited
/// on.
pub proof fn lemma_fills_clear_pending_order(s: BotStateView, id: Seq<char>)
    ensures
        bot_step(s, BotEventView::Filled).0.order_id.len() == 0,
        bot_step(s, BotEventView::Filled).0.phase == other_phase(s.phase),
        bot_step(s, BotEventView::Filled).1 is SaveAndContinue,
        bot_step(s, BotEventView::OrderPlaced(id)).0.order_id == id,
        bot_step(s, BotEventView::OrderPlaced(id)).1 == (BotActionView::AwaitFill {
            order_id: id,
            save_first: true,
        }),
{
}

/// A shutdown request leaves the state as it is and stops the bot.
pub proof fn lemma_shutdown_stops(s: BotStateView)
    ensures
        bot_step(s, BotEventView::ShutdownRequested) == (s, BotActionView::Shutdown),
{
}

/// A whole cycle: from buying with no pending order, deciding, placing the
/// buy, its fill, deciding, placing the sell and its fill bring the bot back
/// to buying with no pending order in the next cycle, having bought first
/// and sold second.
pub proof fn lemma_full_cycle(s: BotStateView, buy_id: Seq<char>, sell_id: Seq<char>)
    requires
        s.phase == Phase::Buying,
        s.order_id.len() == 0,
    ensures
        ({
            let (s1, a1) = bot_step(s, BotEventView::Resume);
            let (s2, a2) = bot_step(s1, BotEventView::OrderPlaced(buy_id));
            let (s3, a3) = bot_step(s2, BotEventView::Filled);
            let (s4, a4) = bot_step(s3, BotEventView::Resume);
            let (s5, a5) = bot_step(s4, BotEventView::OrderPlaced(sell_id));
            let (s6, a6) = bot_step(s5, BotEventView::Filled);
            &&& a1 == BotActionView::PlaceOrder(Side::Buy)
            &&& a2 == (BotActionView::AwaitFill { order_id: buy_id, save_first: true })
            &&& a3 == (BotActionView::SaveAndContinue { new_cycle: false })
            &&& a4 == BotActionView::PlaceOrder(Side::Sell)
            &&& a5 == (BotActionView::AwaitFill { order_id: sell_id, save_first: true })
            &&& a6 == (BotActionView::SaveAndContinue { new_cycle: true })
            &&& s6 == BotStateView {
                cycle: next_cycle(s.cycle),
                phase: Phase::Buying,
                order_id: Seq::empty(),
            }
        }),
{
}

/// How long the bot waits between two checks of an open order.
pub const CHECK_INTERVAL_SECS: u64 = 300;

/// The chunks in which that wait is slept, so that a shutdown request is
/// noticed within this many seconds.
pub const SLEEP_CHUNK_SECS: u64 = 10;

/// Whether the order with client id `order_id` is filled: it no longer
/// appears among the active orders.
pub fn order_filled(active_ids: &Vec<String>, order_id: &str) -> (res: bool)
    ensures
        res == !active_ids@.map_values(|s: String| s@).contains(order_id@),
{
    let ghost ids = active_ids@.map_values(|s: String| s@);
    let n = active_ids.len();
    for i in 0..n
        invariant
            n == active_ids@.len(),
            ids == active_ids@.map_values(|s: String| s@),
            forall|j: int| 0 <= j < i ==> ids[j] != order_id@,
    {
        if str_eq(active_ids[i].as_str(), order_id) {
            assert(ids[i as int] == order_id@);
            return false;
        }
    }
    assert forall|j: int| 0 <= j < ids.len() implies ids[j] != order_id@ by {}
    true
}

/// What to do while waiting between two checks of an open order.
#[derive(Debug, Clone, Copy, PartialEq, Eq, Structural)]
pub enum PollWait {
    /// A shutdown was asked for: stop waiting, the order unfilled.
    Stop,
    /// Sleep for one chunk.
    Sleep,
    /// The interval is over: check the order again.
    Recheck,
}

/// The waiting decision: a shutdown request stops the wait at once, before
/// the deadline the bot sleeps on, after it the order is checked again.
pub fn poll_wait(shutdown_requested: bool, before_deadline: bool) -> (res: PollWait)
    ensures
        shutdown_requested ==> res == PollWait::Stop,
        !shutdown_requested && before_deadline ==> res == PollWait::Sleep,
        !shutdown_requested && !before_deadline ==> res == PollWait::Recheck,
{
    if shutdown_requested {
        PollWait::Stop
    } else if before_deadline {
        PollWait::Sleep
    } else {
        PollWait::Recheck
    }
}

/// How many times an operation is attempted at most.
pub const MAX_ATTEMPTS: u32 = 3;

/// How long the first wait before a retry lasts.
pub const FIRST_RETRY_DELAY_SECS: u64 = 2;

/// The retry schedule of an operation: which attempt is under way, and how
/// long to wait before the next one. The wait doubles after each failure.
pub struct Retry {
    attempt: u32,
    delay_secs: u64,
}

/// The wait before attempt `attempt + 1`: 2 seconds, doubled per attempt.
pub open spec fn retry_delay(attempt: nat) -> nat
    decreases attempt,
{
    if attempt <= 1 {
        FIRST_RETRY_DELAY_SECS as nat
    } else {
        2 * retry_delay((attempt - 1) as nat)
    }
}

impl Retry {
    #[verifier::type_invariant]
    spec fn inv(self) -> bool {
        &&& 1 <= self.attempt <= MAX_ATTEMPTS
        &&& self.delay_secs == retry_delay(self.attempt as nat)
    }

    /// The attempt under way, counted from 1.
    pub closed spec fn attempt_spec(self) -> nat {
        self.attempt as nat
    }

    /// The schedule before the first attempt.
    pub fn new() -> (res: Retry)
        ensures
            res.attempt_spec() == 1,
    {
        Retry { attempt: 1, delay_secs: FIRST_RETRY_DELAY_SECS }
    }

    /// The attempt under way, counted from 1.
    pub fn attempt(&self) -> (res: u32)
        ensures
            res == self.attempt_spec(),
            1 <= res <= MAX_ATTEMPTS,
    {
        proof {
            use_type_invariant(self);
        }
        self.attempt
    }

    /// After the attempt under way failed: `None` where it was the last
    /// allowed one, else the seconds to wait and the schedule of the next
    /// attempt.
    pub fn after_failure(&self) -> (res: Option<(u64, Retry)>)
        ensures
            res is None <==> self.attempt_spec() >= MAX_ATTEMPTS,
            res matches Some((wait, next)) ==> wait == retry_delay(self.attempt_spec())
                && next.attempt_spec() == self.attempt_spec() + 1,
    {
        proof {
            use_type_invariant(self);
        }
        if self.attempt >= MAX_ATTEMPTS {
            None
        } else {
            assert(self.delay_secs <= 4) by {
                reveal_with_fuel(retry_delay, 3);
            }
            let next = Retry { attempt: self.attempt + 1, delay_secs: self.delay_secs * 2 };
            Some((self.delay_secs, next))
        }
    }
}

/// The wait before a retry starts at 2 seconds and doubles with each
/// failed attempt: after attempt `k` it is `2^k` seconds.
pub proof fn lemma_retry_delay_doubles(attempt: nat)
    requires
        attempt >= 1,
    ensures
        retry_delay(attempt) == pow2(attempt),
    decreases attempt,
{
    lemma_pow2_unfold(attempt);
    if attempt > 1 {
        lemma_retry_delay_doubles((attempt - 1) as nat);
    } else {
        lemma2_to64();
    }
}

} // verus!

//! The backtest driver: a virtual clock, the execution engine over the
//! exchange simulator, and the message bus.
//!
//! One input (a command or a market-data tick) is processed to completion
//! before the clock advances to the next, so there is no concurrency at
//! all; and every step is pinned to a pure function of the driver state
//! and the input. Together these give backtest determinism: replaying the
//! same input sequence from the same starting state yields the same event
//! sequence, timestamps included.

use vstd::prelude::*;
use crate::bus::{BusView, MessageBus};
use crate::clock::VirtualClock;
use crate::engine::{EngineView, ExecutionEngine};
use crate::events::{OrderEvent, RejectReason};
use crate::matching::MarketTick;
use crate::messages::{Command, RiskDecision};

verus! {

/// One backtest input: a strategy command with its risk decision, or a
/// simulated market-data tick; `at` is the virtual time at which it is
/// processed.
#[derive(Clone, Copy, Debug)]
pub enum BacktestInput {
    Command { at: u64, cmd: Command, risk: RiskDecision },
    Tick { at: u64, tick: MarketTick },
}

impl BacktestInput {
    /// The virtual time of this input.
    pub open spec fn at_spec(self) -> u64 {
        match self {
            BacktestInput::Command { at, .. } => at,
            BacktestInput::Tick { at, .. } => at,
        }
    }

    /// Executable twin of [`BacktestInput::at_spec`].
    pub fn at(&self) -> (t: u64)
        ensures
            t == self.at_spec(),
    {
        match self {
            BacktestInput::Command { at, .. } => *at,
            BacktestInput::Tick { at, .. } => *at,
        }
    }
}

/// Ghost state of the backtest driver.
pub ghost struct BacktestView {
    pub engine: EngineView,
    pub clock: u64,
    pub bus: BusView,
}

impl BacktestView {
    /// Engine and bus well formed.
    pub open spec fn wf(self) -> bool {
        &&& self.engine.wf()
        &&& self.bus.wf()
    }

    /// What one step does: the clock advances to the input's time, the
    /// engine processes the input, and every emitted event is published
    /// to the bus on the topic keyed by its client order id, in emission
    /// order.
    pub open spec fn step_spec(self, input: BacktestInput) -> (
        BacktestView,
        Seq<OrderEvent>,
        Result<(), RejectReason>,
    ) {
        match input {
            BacktestInput::Command { at, cmd, risk } => {
                let e = self.engine.execute_spec(cmd, risk, at);
                (
                    BacktestView { engine: e.0, clock: at, bus: self.bus.publish_all_spec(e.1) },
                    e.1,
                    e.2,
                )
            },
            BacktestInput::Tick { at, tick } => {
                let e = self.engine.on_tick_spec(tick, at);
                (
                    BacktestView { engine: e.0, clock: at, bus: self.bus.publish_all_spec(e.1) },
                    e.1,
                    Ok(()),
                )
            },
        }
    }

    /// A whole replay: the inputs processed in order, with every emitted
    /// event collected in emission order.
    pub open spec fn run_spec(self, inputs: Seq<BacktestInput>) -> (BacktestView, Seq<OrderEvent>)
        decreases inputs.len(),
    {
        if inputs.len() == 0 {
            (self, Seq::<OrderEvent>::empty())
        } else {
            let s = self.step_spec(inputs[0]);
            let rest = s.0.run_spec(inputs.drop_first());
            (rest.0, s.1 + rest.1)
        }
    }
}

/// A step changes neither the simulator's configuration nor its latency,
/// and leaves the clock at the input's time.
pub proof fn lemma_step_stable(v: BacktestView, input: BacktestInput)
    ensures
        v.step_spec(input).0.engine.sim.latency == v.engine.sim.latency,
        v.step_spec(input).0.clock == input.at_spec(),
{
    match input {
        BacktestInput::Command { at, cmd, risk } => match cmd {
            Command::CancelAll(c) => {
                crate::engine::lemma_cancel_all_latency(
                    v.engine,
                    c,
                    at,
                    0,
                    v.engine.orders.len(),
                );
            },
            _ => {},
        },
        BacktestInput::Tick { .. } => {},
    }
}

/// Backtest determinism: a replay is a pure function of the starting
/// state and the input sequence, so replaying identical market-data and
/// command sequences from identical starting states yields identical
/// event sequences — same events, same order, same timestamps — and
/// identical final states.
pub proof fn lemma_backtest_determinism(
    v1: BacktestView,
    v2: BacktestView,
    inputs1: Seq<BacktestInput>,
    inputs2: Seq<BacktestInput>,
)
    requires
        v1 == v2,
        inputs1 == inputs2,
    ensures
        v1.run_spec(inputs1) == v2.run_spec(inputs2),
{
}

/// The backtest driver.
pub struct BacktestEngine {
    pub engine: ExecutionEngine,
    pub clock: VirtualClock,
    pub bus: MessageBus,
}

impl View for BacktestEngine {
    type V = BacktestView;

    open spec fn view(&self) -> BacktestView {
        BacktestView { engine: self.engine@, clock: self.clock.time_ns, bus: self.bus@ }
    }
}

/// Publishes a batch of events in order, each to the topic keyed by its
/// client order id.
fn publish_all(bus: &mut MessageBus, evs: &Vec<OrderEvent>)
    requires
        old(bus)@.wf(),
    ensures
        final(bus)@.wf(),
        final(bus)@ == old(bus)@.publish_all_spec(evs@),
{
    let ghost target = old(bus)@.publish_all_spec(evs@);
    proof {
        assert(evs@.skip(0) =~= evs@);
    }
    let mut k: usize = 0;
    loop
        invariant
            bus@.wf(),
            k <= evs@.len(),
            target == bus@.publish_all_spec(evs@.skip(k as int)),
        ensures
            bus@.wf(),
            k == evs@.len(),
            target == bus@.publish_all_spec(evs@.skip(k as int)),
        decreases evs@.len() - k,
    {
        if k == evs.len() {
            break;
        }
        let ghost rest = evs@.skip(k as int);
        let ev = evs[k];
        proof {
            assert(rest[0] == ev);
            assert(rest.drop_first() =~= evs@.skip(k as int + 1));
        }
        bus.publish(ev.client_order_id.0, ev);
        k = k + 1;
    }
    proof {
        assert(evs@.skip(evs@.len() as int) =~= Seq::<OrderEvent>::empty());
    }
}

impl BacktestEngine {
    /// A fresh driver: empty engine and bus, clock at `start_ns`.
    pub fn new(allow_self_match: bool, latency: u64, start_ns: u64) -> (b: BacktestEngine)
        ensures
            b@.wf(),
            b@.clock == start_ns,
            b@.engine.sim.latency == latency,
            b@.engine.sim.allow_self_match == allow_self_match,
            b@.engine.orders == Seq::<crate::order::Order>::empty(),
            b@.bus.topics == Seq::<crate::bus::TopicView>::empty(),
    {
        BacktestEngine {
            engine: ExecutionEngine::new(allow_self_match, latency),
            clock: VirtualClock::new(start_ns),
            bus: MessageBus::new(),
        }
    }

    /// Processes one input to completion, exactly as
    /// [`BacktestView::step_spec`] says: clock advance, engine, bus.
    /// Returns the emitted events in order and the input's outcome.
    pub fn step(&mut self, input: BacktestInput) -> (out: (
        Vec<OrderEvent>,
        Result<(), RejectReason>,
    ))
        requires
            old(self)@.wf(),
            input.at_spec() >= old(self)@.clock,
            input.at_spec() + old(self)@.engine.sim.latency <= u64::MAX,
        ensures
            final(self)@.wf(),
            (final(self)@, out.0@, out.1) == old(self)@.step_spec(input),
    {
        let now = input.at();
        self.clock.advance_to(now);
        match input {
            BacktestInput::Command { cmd, risk, .. } => {
                let r = self.engine.execute(cmd, risk, now);
                publish_all(&mut self.bus, &r.0);
                r
            },
            BacktestInput::Tick { tick, .. } => {
                let evs = self.engine.on_tick(tick, now);
                publish_all(&mut self.bus, &evs);
                (evs, Ok(()))
            },
        }
    }

    /// Replays a whole input sequence, exactly as
    /// [`BacktestView::run_spec`] says; the inputs must be in
    /// nondecreasing virtual-time order, at or after the clock. Returns
    /// every emitted event in emission order.
    pub fn run(&mut self, inputs: &Vec<BacktestInput>) -> (events: Vec<OrderEvent>)
        requires
            old(self)@.wf(),
            forall|i: int|
                0 <= i < inputs@.len() ==> (#[trigger] inputs@[i]).at_spec() >= old(self)@.clock,
            forall|i: int, j: int|
                0 <= i < j < inputs@.len() ==> (#[trigger] inputs@[i]).at_spec()
                    <= (#[trigger] inputs@[j]).at_spec(),
            forall|i: int|
                0 <= i < inputs@.len() ==> (#[trigger] inputs@[i]).at_spec() + old(
                    self,
                )@.engine.sim.latency <= u64::MAX,
        ensures
            final(self)@.wf(),
            (final(self)@, events@) == old(self)@.run_spec(inputs@),
    {
        let ghost pre = self@;
        let ghost target = pre.run_spec(inputs@);
        let mut events: Vec<OrderEvent> = Vec::new();
        proof {
            assert(inputs@.skip(0) =~= inputs@);
            assert(events@ + target.1 =~= target.1);
        }
        let mut k: usize = 0;
        loop
            invariant
                self@.wf(),
                k <= inputs@.len(),
                self@.engine.sim.latency == pre.engine.sim.latency,
                forall|i: int|
                    k <= i < inputs@.len() ==> (#[trigger] inputs@[i]).at_spec() >= self@.clock,
                forall|i: int, j: int|
                    0 <= i < j < inputs@.len() ==> (#[trigger] inputs@[i]).at_spec()
                        <= (#[trigger] inputs@[j]).at_spec(),
                forall|i: int|
                    0 <= i < inputs@.len() ==> (#[trigger] inputs@[i]).at_spec()
                        + pre.engine.sim.latency <= u64::MAX,
                target.0 == self@.run_spec(inputs@.skip(k as int)).0,
                target.1 == events@ + self@.run_spec(inputs@.skip(k as int)).1,
            ensures
                self@.wf(),
                k == inputs@.len(),
                target.0 == self@.run_spec(inputs@.skip(k as int)).0,
                target.1 == events@ + self@.run_spec(inputs@.skip(k as int)).1,
            decreases inputs@.len() - k,
        {
            if k == inputs.len() {
                break;
            }
            let ghost stview = self@;
            let ghost rest = inputs@.skip(k as int);
            let input = inputs[k];
            proof {
                assert(rest[0] == input);
                assert(rest.drop_first() =~= inputs@.skip(k as int + 1));
                lemma_step_stable(stview, input);
            }
            let ghost evs_before = events@;
            let (evs, _outcome) = self.step(input);
            let mut j: usize = 0;
            loop
                invariant
                    j <= evs@.len(),
                    events@ == evs_before + evs@.take(j as int),
                ensures
                    j == evs@.len(),
                    events@ == evs_before + evs@.take(j as int),
                decreases evs@.len() - j,
            {
                if j == evs.len() {
                    break;
                }
                events.push(evs[j]);
                proof {
                    assert(evs@.take(j as int + 1) =~= evs@.take(j as int).push(
                        evs@[j as int],
                    ));
                    assert(evs_before + evs@.take(j as int + 1) =~= (evs_before + evs@.take(
                        j as int,
                    )).push(evs@[j as int]));
                }
                j = j + 1;
            }
            proof {
                assert(evs@.take(evs@.len() as int) =~= evs@);
                let s = stview.step_spec(input);
                assert((self@, evs@, _outcome) == s);
                assert(stview.run_spec(rest).0 == s.0.run_spec(rest.drop_first()).0);
                assert(stview.run_spec(rest).1 == s.1 + s.0.run_spec(rest.drop_first()).1);
                assert((evs_before + s.1) + s.0.run_spec(rest.drop_first()).1 =~= evs_before + (
                s.1 + s.0.run_spec(rest.drop_first()).1));
                assert forall|i: int|
                    k + 1 <= i < inputs@.len() implies (#[trigger] inputs@[i]).at_spec()
                    >= self@.clock by {
                    assert(inputs@[k as int].at_spec() <= inputs@[i].at_spec());
                }
            }
            k = k + 1;
        }
        proof {
            assert(inputs@.skip(inputs@.len() as int) =~= Seq::<BacktestInput>::empty());
            assert(events@ + Seq::<OrderEvent>::empty() =~= events@);
        }
        events
    }
}

} // verus!

//! The engine as a state machine over plain values: its state, what each
//! input does to it, and what holds of every run.

use crate::config::Config;
use crate::event::{OutboundFailure, Terminal, TransportFailure};
use crate::frame::{fits, parse};
use vstd::prelude::*;

verus! {

/// The state of an engine, as plain values.
pub struct EngineView {
    /// How long a request waits for its response, in milliseconds.
    pub request_timeout: u64,
    /// The largest payload of one frame, in bytes.
    pub max_frame_size: nat,
    /// The identifier that the next outbound request gets. Every identifier
    /// below it was given out, each once.
    pub next_request_id: nat,
    /// The outbound requests that are not resolved yet, each with its
    /// deadline.
    pub pending: Map<u64, u64>,
    /// The identifier that the next inbound exchange gets.
    pub next_inbound_id: nat,
    /// The inbound exchanges whose channel has not been used yet.
    pub inbound: Set<u64>,
}

/// The deadline of a request sent at `now` with the given timeout: the sum,
/// or the last moment that can be told where the sum is beyond it.
pub open spec fn deadline_after(now: u64, timeout: u64) -> u64 {
    if now + timeout > u64::MAX {
        u64::MAX
    } else {
        (now + timeout) as u64
    }
}

/// The requests among `pending` whose deadline has come at `now`.
pub open spec fn expired(pending: Map<u64, u64>, now: u64) -> Set<u64> {
    Set::new(|id: u64| pending.contains_key(id) && pending[id] <= now)
}

impl EngineView {
    /// The state of a new engine with the given settings.
    pub open spec fn initial(config: Config) -> EngineView {
        EngineView {
            request_timeout: config.request_timeout_ms,
            max_frame_size: config.max_frame_size as nat,
            next_request_id: 0,
            pending: Map::empty(),
            next_inbound_id: 0,
            inbound: Set::empty(),
        }
    }

    /// The state of an engine with the given settings that continues the
    /// numbering of an earlier one: nothing is pending and no exchange is
    /// open, and the identifiers below the two counters count as given out.
    pub open spec fn resuming(
        config: Config,
        next_request_id: u64,
        next_inbound_id: u64,
    ) -> EngineView {
        EngineView {
            request_timeout: config.request_timeout_ms,
            max_frame_size: config.max_frame_size as nat,
            next_request_id: next_request_id as nat,
            pending: Map::empty(),
            next_inbound_id: next_inbound_id as nat,
            inbound: Set::empty(),
        }
    }

    /// What holds of every state: only identifiers that were given out are
    /// in use, and the counters fit their type.
    pub open spec fn wf(self) -> bool {
        &&& self.next_request_id <= u64::MAX
        &&& self.next_inbound_id <= u64::MAX
        &&& forall|id: u64| self.pending.contains_key(id) ==> id < self.next_request_id
        &&& forall|id: u64| self.inbound.contains(id) ==> id < self.next_inbound_id
    }

    /// Whether a request with a payload of `len` bytes is taken on.
    pub open spec fn can_send(self, len: nat) -> bool {
        fits(len, self.max_frame_size) && self.next_request_id < u64::MAX
    }

    /// The state after a request with a payload of `len` bytes was handed in
    /// at `now`.
    pub open spec fn after_send(self, len: nat, now: u64) -> EngineView {
        if self.can_send(len) {
            EngineView {
                next_request_id: self.next_request_id + 1,
                pending: self.pending.insert(
                    self.next_request_id as u64,
                    deadline_after(now, self.request_timeout),
                ),
                ..self
            }
        } else {
            self
        }
    }

    /// The final state of the pending request `id` when its stream has
    /// delivered `bytes` at `now`.
    pub open spec fn response_outcome(self, id: u64, bytes: Seq<u8>, now: u64) -> Terminal
        recommends
            self.pending.contains_key(id),
    {
        if now >= self.pending[id] {
            Terminal::TimedOut
        } else {
            match parse(bytes, self.max_frame_size) {
                Ok(payload) => Terminal::Completed(payload),
                Err(e) => Terminal::Failed(OutboundFailure::Codec(e)),
            }
        }
    }

    /// The state after the request `id` was resolved.
    pub open spec fn after_resolve(self, id: u64) -> EngineView {
        EngineView { pending: self.pending.remove(id), ..self }
    }

    /// The pending requests whose deadline has come at `now`.
    pub open spec fn expired(self, now: u64) -> Set<u64> {
        expired(self.pending, now)
    }

    /// The state after the requests whose deadline has come at `now` were
    /// timed out.
    pub open spec fn after_tick(self, now: u64) -> EngineView {
        EngineView { pending: self.pending.remove_keys(self.expired(now)), ..self }
    }

    /// The state after a shutdown: nothing is pending and no exchange is
    /// open.
    pub open spec fn after_shutdown(self) -> EngineView {
        EngineView { pending: Map::empty(), inbound: Set::empty(), ..self }
    }

    /// Whether a stream that has delivered `bytes` is accepted as an inbound
    /// exchange.
    pub open spec fn can_accept(self, bytes: Seq<u8>) -> bool {
        parse(bytes, self.max_frame_size) is Ok && self.next_inbound_id < u64::MAX
    }

    /// The state after a stream that has delivered `bytes` came in.
    pub open spec fn after_accept(self, bytes: Seq<u8>) -> EngineView {
        if self.can_accept(bytes) {
            EngineView {
                next_inbound_id: self.next_inbound_id + 1,
                inbound: self.inbound.insert(self.next_inbound_id as u64),
                ..self
            }
        } else {
            self
        }
    }

    /// The state after the channel of the inbound exchange `id` was used.
    pub open spec fn after_close(self, id: u64) -> EngineView {
        EngineView { inbound: self.inbound.remove(id), ..self }
    }
}

/// What can happen to an engine.
pub enum Input {
    /// A request with a payload of `len` bytes is handed in at `now`.
    Send { len: nat, now: u64 },
    /// The stream of the request `id` has delivered `bytes` at `now`.
    Response { id: u64, bytes: Seq<u8>, now: u64 },
    /// The transport has failed the request `id`.
    Failure { id: u64, failure: TransportFailure },
    /// The clock is read at `now` and deadlines are enforced.
    Tick { now: u64 },
    /// The engine is shut down.
    Shutdown,
    /// A stream that has delivered `bytes` comes in.
    Accept { bytes: Seq<u8> },
    /// The channel of the inbound exchange `id` is used, for a response or
    /// to give the exchange up.
    Close { id: u64 },
}

/// What one input leads to.
pub struct Step {
    /// The state after the input.
    pub next: EngineView,
    /// The outbound requests that the input resolves, each with its final
    /// state.
    pub resolved: Map<u64, Terminal>,
    /// The inbound exchanges that the input ends.
    pub closed: Set<u64>,
}

/// The step that the input `i` makes from the state `s`.
pub open spec fn step(s: EngineView, i: Input) -> Step {
    match i {
        Input::Send { len, now } => Step {
            next: s.after_send(len, now),
            resolved: Map::empty(),
            closed: Set::empty(),
        },
        Input::Response { id, bytes, now } => if s.pending.contains_key(id) {
            Step {
                next: s.after_resolve(id),
                resolved: Map::empty().insert(id, s.response_outcome(id, bytes, now)),
                closed: Set::empty(),
            }
        } else {
            Step { next: s, resolved: Map::empty(), closed: Set::empty() }
        },
        Input::Failure { id, failure } => if s.pending.contains_key(id) {
            Step {
                next: s.after_resolve(id),
                resolved: Map::empty().insert(
                    id,
                    Terminal::Failed(OutboundFailure::Transport(failure)),
                ),
                closed: Set::empty(),
            }
        } else {
            Step { next: s, resolved: Map::empty(), closed: Set::empty() }
        },
        Input::Tick { now } => Step {
            next: s.after_tick(now),
            resolved: Map::new(|id: u64| s.expired(now).contains(id), |id: u64| Terminal::TimedOut),
            closed: Set::empty(),
        },
        Input::Shutdown => Step {
            next: s.after_shutdown(),
            resolved: Map::new(
                |id: u64| s.pending.contains_key(id),
                |id: u64| Terminal::Cancelled,
            ),
            closed: s.inbound,
        },
        Input::Accept { bytes } => Step {
            next: s.after_accept(bytes),
            resolved: Map::empty(),
            closed: Set::empty(),
        },
        Input::Close { id } => if s.inbound.contains(id) {
            Step { next: s.after_close(id), resolved: Map::empty(), closed: Set::empty().insert(id) }
        } else {
            Step { next: s, resolved: Map::empty(), closed: Set::empty() }
        },
    }
}

/// A run: the state it ends in and the steps it made, first to last.
pub struct Run {
    pub state: EngineView,
    pub trace: Seq<Step>,
}

/// The run that the inputs make from the state `s`, one after the other.
pub open spec fn run(s: EngineView, inputs: Seq<Input>) -> Run
    decreases inputs.len(),
{
    if inputs.len() == 0 {
        Run { state: s, trace: Seq::empty() }
    } else {
        let before = run(s, inputs.drop_last());
        let last = step(before.state, inputs.last());
        Run { state: last.next, trace: before.trace.push(last) }
    }
}

/// How many steps of `trace` resolve the outbound request `id`.
pub open spec fn resolutions(trace: Seq<Step>, id: u64) -> nat
    decreases trace.len(),
{
    if trace.len() == 0 {
        0
    } else {
        resolutions(trace.drop_last(), id) + if trace.last().resolved.contains_key(id) {
            1nat
        } else {
            0nat
        }
    }
}

/// A step keeps the state well-formed and never takes an identifier back.
pub proof fn lemma_step_wf(s: EngineView, i: Input)
    requires
        s.wf(),
    ensures
        step(s, i).next.wf(),
        step(s, i).next.next_request_id >= s.next_request_id,
        step(s, i).next.next_inbound_id >= s.next_inbound_id,
        step(s, i).next.request_timeout == s.request_timeout,
        step(s, i).next.max_frame_size == s.max_frame_size,
{
}

/// What a step does to one outbound request: it is resolved only while it is
/// pending and is then pending no more; it stays pending where the step does
/// not resolve it; and it becomes pending only by getting a new identifier.
pub proof fn lemma_step_outbound(s: EngineView, i: Input, id: u64)
    requires
        s.wf(),
    ensures
        step(s, i).resolved.contains_key(id) ==> s.pending.contains_key(id) && !step(
            s,
            i,
        ).next.pending.contains_key(id),
        s.pending.contains_key(id) && !step(s, i).resolved.contains_key(id) ==> step(
            s,
            i,
        ).next.pending.contains_key(id) && step(s, i).next.pending[id] == s.pending[id],
        !s.pending.contains_key(id) ==> (step(s, i).next.pending.contains_key(id) <==> s.next_request_id
            <= id < step(s, i).next.next_request_id),
{
}

/// What a step does to one inbound exchange: it is ended only while it is
/// open and is then open no more; it stays open where the step does not end
/// it; and it is opened only by getting a new identifier.
pub proof fn lemma_step_inbound(s: EngineView, i: Input, id: u64)
    requires
        s.wf(),
    ensures
        step(s, i).closed.contains(id) ==> s.inbound.contains(id) && !step(
            s,
            i,
        ).next.inbound.contains(id),
        s.inbound.contains(id) && !step(s, i).closed.contains(id) ==> step(
            s,
            i,
        ).next.inbound.contains(id),
        !s.inbound.contains(id) ==> (step(s, i).next.inbound.contains(id) <==> s.next_inbound_id
            <= id < step(s, i).next.next_inbound_id),
{
}

/// Every run from a well-formed state ends in one, with counters that did
/// not go back.
pub proof fn lemma_run_wf(s: EngineView, inputs: Seq<Input>)
    requires
        s.wf(),
    ensures
        run(s, inputs).state.wf(),
        run(s, inputs).state.next_request_id >= s.next_request_id,
        run(s, inputs).state.next_inbound_id >= s.next_inbound_id,
        run(s, inputs).trace.len() == inputs.len(),
    decreases inputs.len(),
{
    if inputs.len() > 0 {
        lemma_run_wf(s, inputs.drop_last());
        lemma_step_wf(run(s, inputs.drop_last()).state, inputs.last());
    }
}

/// The step at position `k` of a run is the step that the input at `k`
/// makes from the state that the inputs before it lead to.
pub proof fn lemma_run_step(s: EngineView, inputs: Seq<Input>, k: int)
    requires
        0 <= k < inputs.len(),
    ensures
        run(s, inputs).trace.len() == inputs.len(),
        run(s, inputs).trace[k] == step(run(s, inputs.take(k)).state, inputs[k]),
    decreases inputs.len(),
{
    let front = inputs.drop_last();
    if front.len() > 0 {
        lemma_run_step(s, front, 0);
    }
    assert(run(s, front).trace.len() == front.len());
    if k == inputs.len() - 1 {
        assert(inputs.take(k) =~= front);
    } else {
        lemma_run_step(s, front, k);
        assert(front.take(k) =~= inputs.take(k));
    }
}

/// One terminal event for each request. In a run from a well-formed state,
/// a request that was pending at the start, or that the run has sent, is
/// either still pending or was resolved by exactly one step; a request that
/// was resolved before the run, or that was never sent, is resolved by none.
pub proof fn lemma_resolution_accounting(s: EngineView, inputs: Seq<Input>, id: u64)
    requires
        s.wf(),
    ensures
        ({
            let r = run(s, inputs);
            let live: nat = if r.state.pending.contains_key(id) {
                1
            } else {
                0
            };
            if s.pending.contains_key(id) || s.next_request_id <= id < r.state.next_request_id {
                resolutions(r.trace, id) + live == 1
            } else {
                resolutions(r.trace, id) == 0 && live == 0
            }
        }),
    decreases inputs.len(),
{
    if inputs.len() > 0 {
        let front = inputs.drop_last();
        let before = run(s, front);
        lemma_resolution_accounting(s, front, id);
        lemma_run_wf(s, front);
        lemma_step_wf(before.state, inputs.last());
        lemma_step_outbound(before.state, inputs.last(), id);
        assert(run(s, inputs).trace.drop_last() =~= before.trace);
    }
}

/// Exactly one terminal event. In a run of a new engine, every request that
/// was sent and is no longer pending was resolved by exactly one step, and
/// no other request was resolved at all.
pub proof fn lemma_exactly_one_terminal_event(config: Config, inputs: Seq<Input>, id: u64)
    ensures
        ({
            let r = run(EngineView::initial(config), inputs);
            &&& resolutions(r.trace, id) <= 1
            &&& resolutions(r.trace, id) == 1 <==> id < r.state.next_request_id
                && !r.state.pending.contains_key(id)
        }),
{
    lemma_resolution_accounting(EngineView::initial(config), inputs, id);
    lemma_run_wf(EngineView::initial(config), inputs);
}

/// No request is left behind. When a run of a new engine ends with a
/// shutdown, or with the clock read at the last moment, nothing is pending
/// and every request that was sent has been resolved by exactly one step.
pub proof fn lemma_every_request_resolved(config: Config, inputs: Seq<Input>, id: u64)
    requires
        inputs.len() > 0,
        inputs.last() is Shutdown || inputs.last() == (Input::Tick { now: u64::MAX }),
    ensures
        ({
            let r = run(EngineView::initial(config), inputs);
            &&& !r.state.pending.contains_key(id)
            &&& id < r.state.next_request_id ==> resolutions(r.trace, id) == 1
            &&& id >= r.state.next_request_id ==> resolutions(r.trace, id) == 0
        }),
{
    lemma_exactly_one_terminal_event(config, inputs, id);
}

/// Once a step of a run has resolved a request, the request is not pending
/// at the end of the run and its identifier is not given out again.
proof fn lemma_resolved_stays_resolved(s: EngineView, inputs: Seq<Input>, id: u64, j: int)
    requires
        s.wf(),
        0 <= j < inputs.len(),
        run(s, inputs).trace[j].resolved.contains_key(id),
    ensures
        !run(s, inputs).state.pending.contains_key(id),
        id < run(s, inputs).state.next_request_id,
    decreases inputs.len(),
{
    let front = inputs.drop_last();
    let before = run(s, front);
    lemma_run_wf(s, front);
    lemma_step_wf(before.state, inputs.last());
    lemma_step_outbound(before.state, inputs.last(), id);
    if j < inputs.len() - 1 {
        assert(run(s, inputs).trace[j] == before.trace[j]);
        lemma_resolved_stays_resolved(s, front, id, j);
    }
}

/// No second terminal event. Two steps of one run never resolve the same
/// request: a request that has timed out is never completed as well, nor
/// the other way round.
pub proof fn lemma_single_terminal_event(
    s: EngineView,
    inputs: Seq<Input>,
    id: u64,
    j: int,
    k: int,
)
    requires
        s.wf(),
        0 <= j < inputs.len(),
        0 <= k < inputs.len(),
        run(s, inputs).trace[j].resolved.contains_key(id),
        run(s, inputs).trace[k].resolved.contains_key(id),
    ensures
        j == k,
{
    if j != k {
        let (a, b) = if j < k {
            (j, k)
        } else {
            (k, j)
        };
        let upto = inputs.take(b);
        lemma_run_step(s, inputs, b);
        lemma_run_step(s, inputs, a);
        lemma_run_step(s, upto, a);
        assert(upto.take(a) =~= inputs.take(a));
        lemma_resolved_stays_resolved(s, upto, id, a);
        lemma_run_wf(s, upto);
        lemma_step_outbound(run(s, upto).state, inputs[b], id);
    }
}

/// When a request times out and when it completes. A step resolves a request
/// as timed out only at or after its deadline, and as completed only before
/// its deadline, with the payload of the frame that its stream delivered.
pub proof fn lemma_terminal_state_and_deadline(s: EngineView, i: Input, id: u64)
    requires
        s.wf(),
        step(s, i).resolved.contains_key(id),
    ensures
        s.pending.contains_key(id),
        step(s, i).resolved[id] is TimedOut ==> (i matches Input::Tick { now } && now
            >= s.pending[id]) || (i matches Input::Response { now, .. } && now >= s.pending[id]),
        step(s, i).resolved[id] matches Terminal::Completed(payload) ==> i matches Input::Response {
            bytes,
            now,
            ..
        } && now < s.pending[id] && parse(bytes, s.max_frame_size) == Ok::<
            Seq<u8>,
            crate::p2p::CodecError,
        >(payload),
        step(s, i).resolved[id] is Cancelled ==> i is Shutdown,
{
}

/// The deadline is enforced. Reading the clock at or after the deadline of a
/// pending request resolves it as timed out.
pub proof fn lemma_deadline_enforced(s: EngineView, now: u64, id: u64)
    requires
        s.pending.contains_key(id),
        s.pending[id] <= now,
    ensures
        step(s, Input::Tick { now }).resolved.contains_key(id),
        step(s, Input::Tick { now }).resolved[id] is TimedOut,
        !step(s, Input::Tick { now }).next.pending.contains_key(id),
{
}

/// A request that is taken on gets the next identifier and a deadline one
/// timeout after it was sent.
pub proof fn lemma_send_sets_deadline(s: EngineView, len: nat, now: u64)
    requires
        s.wf(),
        s.can_send(len),
    ensures
        !s.pending.contains_key(s.next_request_id as u64),
        s.after_send(len, now).pending.contains_key(s.next_request_id as u64),
        s.after_send(len, now).pending[s.next_request_id as u64] == deadline_after(
            now,
            s.request_timeout,
        ),
        deadline_after(now, s.request_timeout) >= now,
        now + s.request_timeout <= u64::MAX ==> deadline_after(now, s.request_timeout) == now
            + s.request_timeout,
{
}

/// Once a step of a run has ended an inbound exchange, the exchange is not
/// open at the end of the run and its identifier is not given out again.
proof fn lemma_closed_stays_closed(s: EngineView, inputs: Seq<Input>, id: u64, j: int)
    requires
        s.wf(),
        0 <= j < inputs.len(),
        run(s, inputs).trace[j].closed.contains(id),
    ensures
        !run(s, inputs).state.inbound.contains(id),
        id < run(s, inputs).state.next_inbound_id,
    decreases inputs.len(),
{
    let front = inputs.drop_last();
    let before = run(s, front);
    lemma_run_wf(s, front);
    lemma_step_wf(before.state, inputs.last());
    lemma_step_inbound(before.state, inputs.last(), id);
    if j < inputs.len() - 1 {
        assert(run(s, inputs).trace[j] == before.trace[j]);
        lemma_closed_stays_closed(s, front, id, j);
    }
}

/// A channel is used once. Two steps of one run never end the same inbound
/// exchange: after its channel was used, a second use finds it closed.
pub proof fn lemma_channel_single_use(s: EngineView, inputs: Seq<Input>, id: u64, j: int, k: int)
    requires
        s.wf(),
        0 <= j < inputs.len(),
        0 <= k < inputs.len(),
        run(s, inputs).trace[j].closed.contains(id),
        run(s, inputs).trace[k].closed.contains(id),
    ensures
        j == k,
{
    if j != k {
        let (a, b) = if j < k {
            (j, k)
        } else {
            (k, j)
        };
        let upto = inputs.take(b);
        lemma_run_step(s, inputs, b);
        lemma_run_step(s, inputs, a);
        lemma_run_step(s, upto, a);
        assert(upto.take(a) =~= inputs.take(a));
        lemma_closed_stays_closed(s, upto, id, a);
        lemma_run_wf(s, upto);
        lemma_step_inbound(run(s, upto).state, inputs[b], id);
    }
}

} // verus!

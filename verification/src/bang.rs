//! The interactive bang loop's decisions: from its state and what happened
//! (the run finished, output arrived, a tick, a key, the agent stream), the
//! next state and what the host does. Waiting for those events and doing
//! the actions belong to the caller.

use vstd::prelude::*;

verus! {

/// Where an interactive bash run stands.
#[derive(Debug, Clone, Copy, PartialEq, Eq, Structural)]
pub enum BangPhase {
    /// Not started.
    Ready,
    /// Started and not yet over.
    Running,
    /// The run ended (with a result, a failure, or the input closing).
    Finished,
    /// Esc cancelled the run.
    Cancelled,
    /// Reading the input failed.
    Failed,
}

/// The loop's state.
#[derive(Debug, Clone, Copy, PartialEq, Eq, Structural)]
pub struct BangState {
    pub phase: BangPhase,
    /// The host shows a bash run in progress.
    pub bash_active: bool,
    /// The driver's output sink for this run is registered.
    pub sink_registered: bool,
    /// The output channel has closed.
    pub chunks_done: bool,
}

/// What happened while the run was on.
#[derive(Debug, Clone, PartialEq, Eq)]
pub enum BangEvent {
    /// The loop starts.
    Start,
    /// The run completed with its result.
    BashDone,
    /// The run failed with the driver's error.
    BashFailed(String),
    /// A piece of output arrived.
    Chunk,
    /// The output channel closed.
    ChunksClosed,
    /// A frame tick.
    Tick,
    /// A terminal event, already applied to the host; `abort` when it left
    /// an abort queued (Esc).
    Input { abort: bool },
    /// Reading the terminal failed.
    InputError(String),
    /// The terminal input ended.
    InputClosed,
    /// An agent event arrived.
    Agent,
    /// The agent's event stream ended.
    AgentEnded,
}

/// What the host does next.
#[derive(Debug, Clone, PartialEq, Eq)]
pub enum BangAction {
    /// Show the run as started, draw, register the output sink and start
    /// the run.
    Begin,
    /// Append the output piece to the run's block.
    AppendChunk,
    /// Step the host with a tick and drain inline effects.
    StepTick,
    /// Apply the agent event to the host.
    StepAgent,
    /// Drop the agent stream, close the run's stream state and draw.
    AgentClosed,
    /// Nothing to do; keep waiting.
    Continue,
    /// Unregister the output sink, then show the result (`push_result`) or
    /// the notice, request quitting when `quit`, end the run and draw.
    Finish { push_result: bool, notice: Option<String>, quit: bool },
    /// Esc: unregister the output sink, abort the driver, mark the run
    /// cancelled and draw, end the run, clear the queued steering messages,
    /// refresh the queue badge and draw.
    Cancel,
    /// Abort the driver, unregister the output sink, end the run, finish
    /// the frame and report the error.
    Fail(String),
    /// The event does not apply in this state.
    Ignore,
}

/// An action as values.
pub enum BangActionView {
    Begin,
    AppendChunk,
    StepTick,
    StepAgent,
    AgentClosed,
    Continue,
    Finish { push_result: bool, notice: Option<Seq<char>>, quit: bool },
    Cancel,
    Fail(Seq<char>),
    Ignore,
}

impl View for BangAction {
    type V = BangActionView;

    open spec fn view(&self) -> BangActionView {
        match self {
            BangAction::Begin => BangActionView::Begin,
            BangAction::AppendChunk => BangActionView::AppendChunk,
            BangAction::StepTick => BangActionView::StepTick,
            BangAction::StepAgent => BangActionView::StepAgent,
            BangAction::AgentClosed => BangActionView::AgentClosed,
            BangAction::Continue => BangActionView::Continue,
            BangAction::Finish { push_result, notice, quit } => BangActionView::Finish {
                push_result: *push_result,
                notice: match notice {
                    Some(n) => Some(n@),
                    None => None,
                },
                quit: *quit,
            },
            BangAction::Cancel => BangActionView::Cancel,
            BangAction::Fail(e) => BangActionView::Fail(e@),
            BangAction::Ignore => BangActionView::Ignore,
        }
    }
}

/// The state before the loop starts.
pub open spec fn bang_ready() -> BangState {
    BangState { phase: BangPhase::Ready, bash_active: false, sink_registered: false, chunks_done: false }
}

/// The run over in `phase`: no run shown, no sink registered.
pub open spec fn bang_over(s: BangState, phase: BangPhase) -> BangState {
    BangState { phase, bash_active: false, sink_registered: false, ..s }
}

/// One step of the loop. Before the start only the start counts: it shows
/// the run and registers the sink. While running: a finished run ends the
/// loop showing its result (or `bash failed: ` and the driver's error);
/// output is appended until its channel closes; ticks and agent events step
/// the host; an Esc that queued an abort cancels the run; a failed input
/// aborts and fails; closed input quits, reporting the run as failed. Once
/// over, nothing applies.
pub open spec fn bang_step_spec(s: BangState, ev: BangEvent) -> (BangState, BangActionView) {
    match s.phase {
        BangPhase::Ready => match ev {
            BangEvent::Start => (
                BangState { phase: BangPhase::Running, bash_active: true, sink_registered: true, chunks_done: false },
                BangActionView::Begin,
            ),
            _ => (s, BangActionView::Ignore),
        },
        BangPhase::Running => match ev {
            BangEvent::Start => (s, BangActionView::Ignore),
            BangEvent::BashDone => (
                bang_over(s, BangPhase::Finished),
                BangActionView::Finish { push_result: true, notice: None, quit: false },
            ),
            BangEvent::BashFailed(e) => (
                bang_over(s, BangPhase::Finished),
                BangActionView::Finish { push_result: false, notice: Some("bash failed: "@ + e@), quit: false },
            ),
            BangEvent::Chunk => if s.chunks_done {
                (s, BangActionView::Ignore)
            } else {
                (s, BangActionView::AppendChunk)
            },
            BangEvent::ChunksClosed => (BangState { chunks_done: true, ..s }, BangActionView::Continue),
            BangEvent::Tick => (s, BangActionView::StepTick),
            BangEvent::Input { abort } => if abort {
                (bang_over(s, BangPhase::Cancelled), BangActionView::Cancel)
            } else {
                (s, BangActionView::Continue)
            },
            BangEvent::InputError(e) => (bang_over(s, BangPhase::Failed), BangActionView::Fail(e@)),
            BangEvent::InputClosed => (
                bang_over(s, BangPhase::Finished),
                BangActionView::Finish {
                    push_result: false,
                    notice: Some("bash failed: input closed during bang"@),
                    quit: true,
                },
            ),
            BangEvent::Agent => (s, BangActionView::StepAgent),
            BangEvent::AgentEnded => (s, BangActionView::AgentClosed),
        },
        _ => (s, BangActionView::Ignore),
    }
}

fn bang_over_exec(s: BangState, phase: BangPhase) -> (o: BangState)
    ensures
        o == bang_over(s, phase),
{
    BangState { phase, bash_active: false, sink_registered: false, ..s }
}

/// One step of the interactive bang loop, as [`bang_step_spec`] says.
pub fn bang_step(s: BangState, ev: BangEvent) -> (r: (BangState, BangAction))
    ensures
        (r.0, r.1@) == bang_step_spec(s, ev),
{
    match s.phase {
        BangPhase::Ready => match ev {
            BangEvent::Start => (
                BangState { phase: BangPhase::Running, bash_active: true, sink_registered: true, chunks_done: false },
                BangAction::Begin,
            ),
            _ => (s, BangAction::Ignore),
        },
        BangPhase::Running => match ev {
            BangEvent::Start => (s, BangAction::Ignore),
            BangEvent::BashDone => (
                bang_over_exec(s, BangPhase::Finished),
                BangAction::Finish { push_result: true, notice: None, quit: false },
            ),
            BangEvent::BashFailed(e) => {
                let mut n = String::new();
                n.append("bash failed: ");
                n.append(e.as_str());
                (bang_over_exec(s, BangPhase::Finished), BangAction::Finish { push_result: false, notice: Some(n), quit: false })
            },
            BangEvent::Chunk => if s.chunks_done {
                (s, BangAction::Ignore)
            } else {
                (s, BangAction::AppendChunk)
            },
            BangEvent::ChunksClosed => (BangState { chunks_done: true, ..s }, BangAction::Continue),
            BangEvent::Tick => (s, BangAction::StepTick),
            BangEvent::Input { abort } => if abort {
                (bang_over_exec(s, BangPhase::Cancelled), BangAction::Cancel)
            } else {
                (s, BangAction::Continue)
            },
            BangEvent::InputError(e) => (bang_over_exec(s, BangPhase::Failed), BangAction::Fail(e)),
            BangEvent::InputClosed => (
                bang_over_exec(s, BangPhase::Finished),
                BangAction::Finish {
                    push_result: false,
                    notice: Some("bash failed: input closed during bang".to_string()),
                    quit: true,
                },
            ),
            BangEvent::Agent => (s, BangAction::StepAgent),
            BangEvent::AgentEnded => (s, BangAction::AgentClosed),
        },
        _ => (s, BangAction::Ignore),
    }
}

/// The loop's invariant: a run is shown, with its sink registered, exactly
/// while it is running.
pub open spec fn bang_wf(s: BangState) -> bool {
    if s.phase == BangPhase::Running {
        s.bash_active && s.sink_registered
    } else {
        !s.bash_active && !s.sink_registered
    }
}

/// Esc cancels: while running, a key that queued an abort ends the loop
/// with the cancel action (the driver aborted, the run marked cancelled),
/// no run shown and the sink unregistered.
pub proof fn law_esc_cancels_bang(s: BangState)
    requires
        s.phase == BangPhase::Running,
    ensures
        bang_step_spec(s, BangEvent::Input { abort: true }).1 == BangActionView::Cancel,
        bang_step_spec(s, BangEvent::Input { abort: true }).0.phase == BangPhase::Cancelled,
        !bang_step_spec(s, BangEvent::Input { abort: true }).0.bash_active,
        !bang_step_spec(s, BangEvent::Input { abort: true }).0.sink_registered,
{
}

/// Every way out of the loop leaves it clean: the invariant holds before
/// the start and every step keeps it, so in every state where the loop is
/// over no run is shown and the output sink is unregistered; and a loop
/// that is over stays over.
pub proof fn law_bang_ends_clean(s: BangState, ev: BangEvent)
    requires
        bang_wf(s),
    ensures
        bang_wf(bang_ready()),
        bang_wf(bang_step_spec(s, ev).0),
        bang_step_spec(s, ev).0.phase != BangPhase::Running && bang_step_spec(s, ev).0.phase != BangPhase::Ready
            ==> !bang_step_spec(s, ev).0.bash_active && !bang_step_spec(s, ev).0.sink_registered,
        s.phase != BangPhase::Running && s.phase != BangPhase::Ready ==> bang_step_spec(s, ev).0 == s,
{
}

} // verus!

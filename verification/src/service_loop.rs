//! The decisions of the compactor's service loop.
//!
//! The loop waits for a tick, subscribes to the manager's stream of tasks,
//! and hands every task it receives to a handler of its own, until the
//! stream fails or ends; then it waits for the next tick and subscribes
//! again. A shutdown signal ends it while it waits or receives. The waiting
//! and receiving is done by whoever runs the loop: it reports what happened
//! as an event and is told what to do next.

use crate::task::CompactTask;
use vstd::prelude::*;

verus! {

/// Seconds between two attempts to subscribe.
pub const STREAM_RETRY_INTERVAL_SECS: u64 = 60;

/// A request to delete tables from the object store.
#[derive(Debug)]
pub struct VacuumTask {
    /// The ids of the tables to delete.
    pub sstable_ids: Vec<u64>,
}

/// A request to list the tables in the object store.
#[derive(Debug)]
pub struct FullScanTask {
    /// Only tables older than this many seconds are listed.
    pub sst_retention_time_sec: u64,
}

/// A task from the manager.
#[derive(Debug)]
pub enum Task {
    CompactTask(CompactTask),
    VacuumTask(VacuumTask),
    FullScanTask(FullScanTask),
}

/// Where the loop stands.
#[derive(Clone, Copy, Debug, PartialEq, Eq, Structural)]
pub enum LoopState {
    /// Waiting for the next tick or for shutdown.
    WaitingForTick,
    /// Waiting for the answer to a subscription.
    Subscribing,
    /// Waiting for the next message of the stream or for shutdown.
    Consuming,
    /// Ended.
    Stopped,
}

/// What happened while the loop waited.
#[derive(Debug)]
pub enum LoopEvent {
    /// The interval ticked.
    Tick,
    /// The shutdown signal came.
    Shutdown,
    /// The subscription succeeded.
    Subscribed,
    /// The subscription failed.
    SubscribeFailed,
    /// The stream delivered a message, with or without a task in it.
    Message(Option<Task>),
    /// The stream failed.
    StreamFailed,
    /// The stream ended.
    StreamEnded,
}

/// What the loop does next.
#[derive(Debug)]
pub enum LoopAction {
    /// Wait for the next tick or for shutdown.
    WaitForTick,
    /// Subscribe to the stream of tasks.
    Subscribe,
    /// Wait for the next message or for shutdown.
    Receive,
    /// Hand the task to a handler of its own, then wait for the next
    /// message or for shutdown.
    Spawn(Task),
    /// End the loop.
    Exit,
}

/// Where the loop stands after an event. An event that cannot happen in a
/// state leaves the state as it is.
pub open spec fn spec_next_state(state: LoopState, event: LoopEvent) -> LoopState {
    match (state, event) {
        (LoopState::Stopped, _) => LoopState::Stopped,
        (LoopState::WaitingForTick, LoopEvent::Shutdown) => LoopState::Stopped,
        (LoopState::Consuming, LoopEvent::Shutdown) => LoopState::Stopped,
        (LoopState::WaitingForTick, LoopEvent::Tick) => LoopState::Subscribing,
        (LoopState::Subscribing, LoopEvent::Subscribed) => LoopState::Consuming,
        (LoopState::Subscribing, LoopEvent::SubscribeFailed) => LoopState::WaitingForTick,
        (LoopState::Consuming, LoopEvent::StreamFailed) => LoopState::WaitingForTick,
        (LoopState::Consuming, LoopEvent::StreamEnded) => LoopState::WaitingForTick,
        (s, _) => s,
    }
}

/// What the loop does after an event: a task that arrives while the loop
/// consumes the stream is spawned; in every other case the loop does what
/// the state it ends up in waits for.
pub open spec fn spec_next_action(state: LoopState, event: LoopEvent) -> LoopAction {
    match (state, event) {
        (LoopState::Consuming, LoopEvent::Message(Some(task))) => LoopAction::Spawn(task),
        _ => match spec_next_state(state, event) {
            LoopState::WaitingForTick => LoopAction::WaitForTick,
            LoopState::Subscribing => LoopAction::Subscribe,
            LoopState::Consuming => LoopAction::Receive,
            LoopState::Stopped => LoopAction::Exit,
        },
    }
}

/// The state in which the loop starts.
pub fn start() -> (s: (LoopState, LoopAction))
    ensures
        s.0 == LoopState::WaitingForTick,
        s.1 == LoopAction::WaitForTick,
{
    (LoopState::WaitingForTick, LoopAction::WaitForTick)
}

/// Decides, from where the loop stands and what happened, where it stands
/// next and what it does.
pub fn next_step(state: LoopState, event: LoopEvent) -> (next: (LoopState, LoopAction))
    ensures
        next.0 == spec_next_state(state, event),
        next.1 == spec_next_action(state, event),
{
    match state {
        LoopState::Stopped => (LoopState::Stopped, LoopAction::Exit),
        LoopState::WaitingForTick => match event {
            LoopEvent::Shutdown => (LoopState::Stopped, LoopAction::Exit),
            LoopEvent::Tick => (LoopState::Subscribing, LoopAction::Subscribe),
            _ => (LoopState::WaitingForTick, LoopAction::WaitForTick),
        },
        LoopState::Subscribing => match event {
            LoopEvent::Subscribed => (LoopState::Consuming, LoopAction::Receive),
            LoopEvent::SubscribeFailed => (LoopState::WaitingForTick, LoopAction::WaitForTick),
            _ => (LoopState::Subscribing, LoopAction::Subscribe),
        },
        LoopState::Consuming => match event {
            LoopEvent::Shutdown => (LoopState::Stopped, LoopAction::Exit),
            LoopEvent::Message(Some(task)) => (LoopState::Consuming, LoopAction::Spawn(task)),
            LoopEvent::StreamFailed => (LoopState::WaitingForTick, LoopAction::WaitForTick),
            LoopEvent::StreamEnded => (LoopState::WaitingForTick, LoopAction::WaitForTick),
            _ => (LoopState::Consuming, LoopAction::Receive),
        },
    }
}

/// The loop ends only on shutdown, and once ended it stays ended.
pub proof fn lemma_loop_ends_on_shutdown_only(state: LoopState, event: LoopEvent)
    ensures
        state == LoopState::Stopped ==> spec_next_state(state, event) == LoopState::Stopped,
        state != LoopState::Stopped && spec_next_state(state, event) == LoopState::Stopped
            ==> event is Shutdown,
        spec_next_action(state, event) is Exit <==> spec_next_state(state, event)
            == LoopState::Stopped,
{
}

/// Every task the stream delivers is spawned, and nothing else is.
pub proof fn lemma_tasks_are_spawned(state: LoopState, event: LoopEvent)
    ensures
        spec_next_action(state, event) matches LoopAction::Spawn(task) ==> state
            == LoopState::Consuming && event == LoopEvent::Message(Some(task)),
        state == LoopState::Consuming ==> (event matches LoopEvent::Message(Some(task))
            ==> spec_next_action(state, event) == LoopAction::Spawn(task)),
{
}

} // verus!

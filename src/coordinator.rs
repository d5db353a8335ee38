use vstd::prelude::*;
use crate::certificate::copy_bytes;
use crate::pki_data::{blocks_view, empty_pki_data, merged, ParsedPkiData, PkiDataView};

verus! {

/// How a watched source failed.
#[derive(PartialEq, Eq, Structural, Clone, Copy, Debug)]
pub enum FailureKind {
    /// A transient retrieval error; retried after a backoff.
    Retryable,
    /// An error in the source's own configuration; not retried.
    Fatal,
}

/// The state of one watched source.
#[derive(PartialEq, Eq, Structural, Clone, Copy, Debug)]
pub enum SourceState {
    Idle,
    Retrieving,
    Merging,
    Failed(FailureKind),
    Stopped,
}

/// What happened to a watched source.
#[derive(PartialEq, Eq, Structural, Clone, Copy, Debug)]
pub enum SourceEvent {
    /// A change notification or a poll interval arrived.
    Notified,
    /// The raw bytes were read and decoded into a delta.
    Retrieved,
    /// The raw bytes were read but did not decode; the delta is dropped.
    DecodeFailed,
    /// Reading failed transiently, or timed out.
    RetrievalFailed,
    /// The source's configuration is wrong (an unknown secret, say).
    ConfigurationError,
    /// The merge step applied the published delta.
    Merged,
    /// The retry backoff ran out.
    BackoffElapsed,
    /// Shutdown was requested.
    Shutdown,
}

/// What the driver of a watched source is to do next.
#[derive(PartialEq, Eq, Structural, Clone, Copy, Debug)]
pub enum SourceAction {
    Nothing,
    /// Read the source's raw bytes.
    StartRetrieval,
    /// Hand the completed delta to the merge step.
    PublishDelta,
    /// Drop the delta that did not decode and report it.
    DropDelta,
    /// Wait for the backoff, then report `BackoffElapsed`.
    ScheduleRetry,
    /// Stop watching and report the failure.
    Halt,
    /// Abandon in-flight work without publishing anything.
    Abandon,
}

/// The transition of a source's state on an event. Shutdown stops every
/// source that has not stopped; a retrieval in flight is abandoned, never
/// published. Events that do not apply to a state leave it as it is.
pub open spec fn transition(state: SourceState, event: SourceEvent) -> (SourceState, SourceAction) {
    match (state, event) {
        (SourceState::Stopped, _) => (SourceState::Stopped, SourceAction::Nothing),
        (_, SourceEvent::Shutdown) => (SourceState::Stopped, SourceAction::Abandon),
        (SourceState::Idle, SourceEvent::Notified) => (
            SourceState::Retrieving,
            SourceAction::StartRetrieval,
        ),
        (SourceState::Retrieving, SourceEvent::Retrieved) => (
            SourceState::Merging,
            SourceAction::PublishDelta,
        ),
        (SourceState::Retrieving, SourceEvent::DecodeFailed) => (
            SourceState::Idle,
            SourceAction::DropDelta,
        ),
        (SourceState::Retrieving, SourceEvent::RetrievalFailed) => (
            SourceState::Failed(FailureKind::Retryable),
            SourceAction::ScheduleRetry,
        ),
        (SourceState::Retrieving, SourceEvent::ConfigurationError) => (
            SourceState::Failed(FailureKind::Fatal),
            SourceAction::Halt,
        ),
        (SourceState::Merging, SourceEvent::Merged) => (SourceState::Idle, SourceAction::Nothing),
        (SourceState::Failed(FailureKind::Retryable), SourceEvent::BackoffElapsed) => (
            SourceState::Retrieving,
            SourceAction::StartRetrieval,
        ),
        _ => (state, SourceAction::Nothing),
    }
}

/// The next state of a source and the action its driver is to take.
pub fn next_step(state: SourceState, event: SourceEvent) -> (r: (SourceState, SourceAction))
    ensures
        r == transition(state, event),
        r.1 == SourceAction::PublishDelta ==> state == SourceState::Retrieving && event
            == SourceEvent::Retrieved,
        state == SourceState::Failed(FailureKind::Fatal) && event != SourceEvent::Shutdown
            ==> r == (state, SourceAction::Nothing),
        event == SourceEvent::Shutdown ==> r.0 == SourceState::Stopped,
{
    match (state, event) {
        (SourceState::Stopped, _) => (SourceState::Stopped, SourceAction::Nothing),
        (_, SourceEvent::Shutdown) => (SourceState::Stopped, SourceAction::Abandon),
        (SourceState::Idle, SourceEvent::Notified) => (
            SourceState::Retrieving,
            SourceAction::StartRetrieval,
        ),
        (SourceState::Retrieving, SourceEvent::Retrieved) => (
            SourceState::Merging,
            SourceAction::PublishDelta,
        ),
        (SourceState::Retrieving, SourceEvent::DecodeFailed) => (
            SourceState::Idle,
            SourceAction::DropDelta,
        ),
        (SourceState::Retrieving, SourceEvent::RetrievalFailed) => (
            SourceState::Failed(FailureKind::Retryable),
            SourceAction::ScheduleRetry,
        ),
        (SourceState::Retrieving, SourceEvent::ConfigurationError) => (
            SourceState::Failed(FailureKind::Fatal),
            SourceAction::Halt,
        ),
        (SourceState::Merging, SourceEvent::Merged) => (SourceState::Idle, SourceAction::Nothing),
        (SourceState::Failed(FailureKind::Retryable), SourceEvent::BackoffElapsed) => (
            SourceState::Retrieving,
            SourceAction::StartRetrieval,
        ),
        _ => (state, SourceAction::Nothing),
    }
}

/// The state after a sequence of events.
pub open spec fn run(state: SourceState, events: Seq<SourceEvent>) -> SourceState
    decreases events.len(),
{
    if events.len() == 0 {
        state
    } else {
        transition(run(state, events.drop_last()), events.last()).0
    }
}

/// Once a source has stopped, no event makes it act again or leave the
/// stopped state.
pub proof fn lemma_stopped_is_final(events: Seq<SourceEvent>, event: SourceEvent)
    ensures
        run(SourceState::Stopped, events) == SourceState::Stopped,
        transition(run(SourceState::Stopped, events), event) == (
            SourceState::Stopped,
            SourceAction::Nothing,
        ),
    decreases events.len(),
{
    if events.len() > 0 {
        lemma_stopped_is_final(events.drop_last(), events.last());
    }
}

/// A fatally failed source stays failed until it is shut down.
pub proof fn lemma_fatal_until_shutdown(events: Seq<SourceEvent>)
    requires
        forall|i: int| 0 <= i < events.len() ==> #[trigger] events[i] != SourceEvent::Shutdown,
    ensures
        run(SourceState::Failed(FailureKind::Fatal), events) == SourceState::Failed(
            FailureKind::Fatal,
        ),
    decreases events.len(),
{
    if events.len() > 0 {
        lemma_fatal_until_shutdown(events.drop_last());
        assert(events.last() == events[events.len() - 1]);
    }
}

/// Copies a sequence of blocks.
pub fn copy_blocks(blocks: &Vec<Vec<u8>>) -> (r: Vec<Vec<u8>>)
    ensures
        blocks_view(r@) == blocks_view(blocks@),
{
    let mut r: Vec<Vec<u8>> = Vec::new();
    let mut i: usize = 0;
    while i < blocks.len()
        invariant
            0 <= i <= blocks@.len(),
            blocks_view(r@) == blocks_view(blocks@.subrange(0, i as int)),
        decreases blocks@.len() - i,
    {
        let b = copy_bytes(&blocks[i]);
        let ghost prev = r@;
        r.push(b);
        assert(blocks_view(r@) =~= blocks_view(prev).push(blocks@[i as int]@));
        assert(blocks_view(blocks@.subrange(0, i + 1)) =~= blocks_view(
            blocks@.subrange(0, i as int),
        ).push(blocks@[i as int]@));
        i = i + 1;
    }
    assert(blocks@ =~= blocks@.subrange(0, i as int));
    r
}

impl ParsedPkiData {
    /// A copy of this set.
    pub fn snapshot(&self) -> (r: ParsedPkiData)
        ensures
            r@ == self@,
    {
        ParsedPkiData {
            x509: copy_blocks(&self.x509),
            pkc1: copy_blocks(&self.pkc1),
            sec1: copy_blocks(&self.sec1),
            crls: copy_blocks(&self.crls),
            csrs: copy_blocks(&self.csrs),
            pkcs8: copy_blocks(&self.pkcs8),
        }
    }
}

/// Reads the current state of a store.
pub trait PkiStore {
    type PkiData;

    type Error;

    fn get(&self) -> Result<Self::PkiData, Self::Error>;
}

/// Receives the events of a watched source.
pub trait PkiWatcherEventHandler<E> {
    fn handle_event(&mut self, event: E);
}

/// The process-wide aggregate of PKI material. It changes only by whole
/// deltas, merged one at a time; readers take copies.
pub struct PkiAggregate {
    data: ParsedPkiData,
    merges: u64,
}

impl PkiAggregate {
    pub closed spec fn contents(&self) -> PkiDataView {
        self.data@
    }

    /// The number of deltas merged so far.
    pub closed spec fn merge_count(&self) -> nat {
        self.merges as nat
    }

    /// An empty aggregate.
    pub fn new() -> (r: PkiAggregate)
        ensures
            r.contents() == empty_pki_data(),
            r.merge_count() == 0,
    {
        PkiAggregate { data: ParsedPkiData::new(), merges: 0 }
    }

    /// Merges a whole delta.
    pub fn apply(&mut self, delta: ParsedPkiData)
        ensures
            final(self).contents() == merged(old(self).contents(), delta@),
            final(self).merge_count() == if old(self).merge_count() < u64::MAX {
                old(self).merge_count() + 1
            } else {
                old(self).merge_count()
            },
    {
        let mut delta = delta;
        self.data.merge(&mut delta);
        if self.merges < u64::MAX {
            self.merges = self.merges + 1;
        }
    }

    /// A point-in-time copy of the contents.
    pub fn snapshot(&self) -> (r: ParsedPkiData)
        ensures
            r@ == self.contents(),
    {
        self.data.snapshot()
    }

    /// The number of deltas merged so far, saturating.
    pub fn merges(&self) -> (r: u64)
        ensures
            r == self.merge_count(),
    {
        self.merges
    }
}

impl PkiStore for PkiAggregate {
    type PkiData = ParsedPkiData;

    type Error = ();

    fn get(&self) -> (r: Result<ParsedPkiData, ()>)
        ensures
            r matches Ok(d) && d@ == self.contents(),
    {
        Ok(self.snapshot())
    }
}

impl PkiWatcherEventHandler<ParsedPkiData> for PkiAggregate {
    fn handle_event(&mut self, event: ParsedPkiData)
        ensures
            final(self).contents() == merged(old(self).contents(), event@),
    {
        self.apply(event)
    }
}

} // verus!

//! Filesystem change events, and the debounced batching of them into index
//! updates.
use vstd::prelude::*;

verus! {

/// Milliseconds during which events that follow a first one are gathered
/// into the same batch.
pub const DEBOUNCE_MILLIS: u64 = 500;

/// A change to one path.
#[derive(Debug)]
pub enum FileEvent {
    Created(String),
    Modified(String),
    Removed(String),
}

/// The kind of a change notification.
#[derive(PartialEq, Eq, Structural, Clone, Copy)]
pub enum ChangeKind {
    Create,
    Modify,
    Remove,
    /// Access and other notifications, which change nothing.
    Other,
}

/// What applying an event does to the index.
#[derive(Debug)]
pub enum EventAction {
    /// Index the file at this path again.
    Reindex(String),
    /// Remove this path from the index.
    Forget(String),
}

impl FileEvent {
    /// The path the event is about.
    pub open spec fn path_of(self) -> Seq<char> {
        match self {
            FileEvent::Created(p) => p@,
            FileEvent::Modified(p) => p@,
            FileEvent::Removed(p) => p@,
        }
    }

    /// A created or modified file is indexed again; a removed one forgotten.
    pub fn action(self) -> (r: EventAction)
        ensures
            match self {
                FileEvent::Removed(p) => r matches EventAction::Forget(q) && q@ == p@,
                _ => r matches EventAction::Reindex(q) && q@ == self.path_of(),
            },
    {
        match self {
            FileEvent::Created(p) => EventAction::Reindex(p),
            FileEvent::Modified(p) => EventAction::Reindex(p),
            FileEvent::Removed(p) => EventAction::Forget(p),
        }
    }
}

/// Whether `e` is the event of kind `kind` for path `p`.
pub open spec fn is_event_of(e: FileEvent, kind: ChangeKind, p: Seq<char>) -> bool {
    match kind {
        ChangeKind::Create => e matches FileEvent::Created(q) && q@ == p,
        ChangeKind::Modify => e matches FileEvent::Modified(q) && q@ == p,
        ChangeKind::Remove => e matches FileEvent::Removed(q) && q@ == p,
        ChangeKind::Other => false,
    }
}

/// The events of one notification of kind `kind` about `paths`: one per
/// path, in order; none for a kind that changes nothing.
pub fn events_for(kind: ChangeKind, paths: Vec<String>) -> (r: Vec<FileEvent>)
    ensures
        kind == ChangeKind::Other ==> r@.len() == 0,
        kind != ChangeKind::Other ==> r@.len() == paths@.len() && forall|i: int|
            0 <= i < r@.len() ==> is_event_of(#[trigger] r@[i], kind, paths@[i]@),
{
    let mut out: Vec<FileEvent> = Vec::new();
    if kind == ChangeKind::Other {
        return out;
    }
    let ghost all = paths@;
    let mut paths = paths;
    let total = paths.len();
    while paths.len() > 0
        invariant
            kind != ChangeKind::Other,
            all.len() == total,
            out@.len() <= total,
            paths@ == all.skip(out@.len() as int),
            paths@.len() == all.len() - out@.len(),
            forall|i: int| 0 <= i < out@.len() ==> is_event_of(#[trigger] out@[i], kind, all[i]@),
        decreases paths@.len(),
    {
        let p = paths.remove(0);
        let ghost k = out@.len() as int;
        assert(p == all[k]);
        let e = match kind {
            ChangeKind::Create => FileEvent::Created(p),
            ChangeKind::Modify => FileEvent::Modified(p),
            _ => FileEvent::Removed(p),
        };
        out.push(e);
        assert(paths@ =~= all.skip(out@.len() as int));
    }
    out
}

/// Where the debouncing loop stands.
pub enum IngestState {
    /// Waiting, without a deadline, for the first event of a batch.
    Idle,
    /// Gathering events, in order of arrival, until the window closes.
    Collecting(Vec<FileEvent>),
    /// The event source has closed; nothing more happens.
    Stopped,
}

/// What the debouncing loop learns.
pub enum IngestInput {
    /// An event arrived.
    Event(FileEvent),
    /// The window opened by the first event of the batch has closed.
    WindowClosed,
    /// The event source has closed.
    SourceClosed,
}

/// What the debouncing loop does next.
pub enum IngestStep {
    /// Wait for an event, without a deadline.
    AwaitFirst,
    /// Start the window of `DEBOUNCE_MILLIS` and wait for events until it
    /// closes.
    OpenWindow,
    /// Keep waiting for events until the window closes.
    AwaitMore,
    /// Under exclusive access, apply these events in order, then commit once.
    Apply(Vec<FileEvent>),
    /// Stop for good.
    Stop,
}

/// The events of a state's batch.
pub open spec fn batch_of(s: IngestState) -> Seq<FileEvent> {
    match s {
        IngestState::Collecting(v) => v@,
        _ => Seq::empty(),
    }
}

/// The events applied by a step, if it applies any.
pub open spec fn applied(s: IngestStep) -> Seq<FileEvent> {
    match s {
        IngestStep::Apply(v) => v@,
        _ => Seq::empty(),
    }
}

/// Whether a step applies a batch.
pub open spec fn applies(s: IngestStep) -> bool {
    s is Apply
}

/// Whether the debouncing loop may go from `s` on input `i` to `t`, taking
/// step `k`.
pub open spec fn is_transition(s: IngestState, i: IngestInput, t: IngestState, k: IngestStep) -> bool {
    match s {
        IngestState::Stopped => t is Stopped && k is Stop,
        IngestState::Idle => match i {
            IngestInput::Event(e) => batch_of(t) == seq![e] && t is Collecting && k is OpenWindow,
            IngestInput::WindowClosed => t is Idle && k is AwaitFirst,
            IngestInput::SourceClosed => t is Stopped && k is Stop,
        },
        IngestState::Collecting(v) => match i {
            IngestInput::Event(e) => t is Collecting && batch_of(t) == v@.push(e) && k is AwaitMore,
            _ => t is Idle && k is Apply && applied(k) == v@,
        },
    }
}

/// One step of the debouncing loop: the state that follows `state` on
/// `input`, and what to do.
pub fn step(state: IngestState, input: IngestInput) -> (r: (IngestState, IngestStep))
    ensures
        is_transition(state, input, r.0, r.1),
{
    match state {
        IngestState::Stopped => (IngestState::Stopped, IngestStep::Stop),
        IngestState::Idle => match input {
            IngestInput::Event(e) => {
                let mut v: Vec<FileEvent> = Vec::new();
                v.push(e);
                assert(v@ =~= seq![e]);
                (IngestState::Collecting(v), IngestStep::OpenWindow)
            },
            IngestInput::WindowClosed => (IngestState::Idle, IngestStep::AwaitFirst),
            IngestInput::SourceClosed => (IngestState::Stopped, IngestStep::Stop),
        },
        IngestState::Collecting(v) => match input {
            IngestInput::Event(e) => {
                let mut v = v;
                v.push(e);
                (IngestState::Collecting(v), IngestStep::AwaitMore)
            },
            _ => (IngestState::Idle, IngestStep::Apply(v)),
        },
    }
}

/// Events that arrive one after another from an idle loop, until the window
/// closes or the source does, are applied as one batch, in order of arrival.
pub proof fn lemma_batch_in_arrival_order(
    events: Seq<FileEvent>,
    states: Seq<IngestState>,
    steps: Seq<IngestStep>,
    last: IngestInput,
)
    requires
        events.len() > 0,
        states.len() == events.len() + 2,
        steps.len() == events.len() + 1,
        states[0] is Idle,
        !(last is Event),
        forall|k: int|
            0 <= k < events.len() ==> is_transition(
                #[trigger] states[k],
                IngestInput::Event(events[k]),
                states[k + 1],
                steps[k],
            ),
        is_transition(
            states[events.len() as int],
            last,
            states[events.len() as int + 1],
            steps[events.len() as int],
        ),
    ensures
        applies(steps[events.len() as int]),
        applied(steps[events.len() as int]) == events,
        states[events.len() as int + 1] is Idle,
        forall|k: int| 0 <= k < events.len() ==> !applies(#[trigger] steps[k]),
{
    let n = events.len() as int;
    lemma_collecting_prefix(events, states, steps, n);
    assert(events.take(n) =~= events);
    assert forall|k: int| 0 <= k < n implies !applies(#[trigger] steps[k]) by {
        if k > 0 {
            lemma_collecting_prefix(events, states, steps, k);
        }
        assert(is_transition(states[k], IngestInput::Event(events[k]), states[k + 1], steps[k]));
    }
}

proof fn lemma_collecting_prefix(
    events: Seq<FileEvent>,
    states: Seq<IngestState>,
    steps: Seq<IngestStep>,
    k: int,
)
    requires
        1 <= k <= events.len(),
        states.len() == events.len() + 2,
        steps.len() == events.len() + 1,
        states[0] is Idle,
        forall|j: int|
            0 <= j < events.len() ==> is_transition(
                #[trigger] states[j],
                IngestInput::Event(events[j]),
                states[j + 1],
                steps[j],
            ),
    ensures
        batch_of(states[k]) == events.take(k),
        states[k] is Collecting,
    decreases k,
{
    assert(is_transition(states[k - 1], IngestInput::Event(events[k - 1]), states[k], steps[k - 1]));
    if k == 1 {
        assert(events.take(1) =~= seq![events[0]]);
    } else {
        lemma_collecting_prefix(events, states, steps, k - 1);
        assert(events.take(k) =~= events.take(k - 1).push(events[k - 1]));
    }
}

} // verus!

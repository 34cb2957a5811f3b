//! The publisher: which message goes out next, decided from the state it is
//! in and what the transport reports.
//!
//! The words go out in their order, one message each, and the next one only
//! after the transport has confirmed the one before, so that at most one
//! message is ever unconfirmed. A refused message ends the run.

use vstd::prelude::*;
use vstd::string::StringSliceAdditionalSpecFns;
use vstd::utf8::encode_utf8;

verus! {

/// The ordering key that every message of a run carries.
pub const ORDERING_KEY: &'static str = "order";

/// What the publisher waits for.
#[derive(Debug, Clone, Copy, PartialEq, Eq, Structural)]
pub enum PublisherPhase {
    /// Not started yet.
    Created,
    /// A message is out and the transport has not confirmed it yet.
    AwaitingConfirmation,
    /// The pause after a confirmed message is running.
    Pausing,
    /// Every word is out and confirmed; the worker stays alive.
    Idle,
    /// The run was given up.
    Aborted,
}

/// Where the publisher stands: its phase, and how many messages it has
/// handed out so far.
#[derive(Debug, Clone, Copy, PartialEq, Eq, Structural)]
pub struct PublisherState {
    pub phase: PublisherPhase,
    pub sent: usize,
}

/// What the outside reports to the publisher.
#[derive(Debug, Clone, Copy, PartialEq, Eq, Structural)]
pub enum PublisherEvent {
    /// The run begins.
    Started,
    /// The transport confirmed the message that is out.
    Confirmed,
    /// The transport did not confirm the message that is out.
    Refused,
    /// The pause is over.
    Paused,
}

/// A message as it is handed to the transport.
#[derive(Debug, Clone)]
pub struct OutgoingMessage {
    pub data: Vec<u8>,
    pub ordering_key: String,
}

/// What the publisher asks the outside to do next.
#[derive(Debug, Clone)]
pub enum PublisherAction {
    /// Publish this message and wait for its confirmation.
    Publish(OutgoingMessage),
    /// Pause for this many milliseconds.
    Pause(u64),
    /// Nothing is left to publish: stay alive and idle.
    Idle,
    /// Give the run up and report the failure.
    Abort,
}

/// `PublisherAction` as mathematical values.
pub ghost enum PublishView {
    Publish { data: Seq<u8>, ordering_key: Seq<char> },
    Pause(u64),
    Idle,
    Abort,
}

impl View for PublisherAction {
    type V = PublishView;

    open spec fn view(&self) -> PublishView {
        match self {
            PublisherAction::Publish(message) => PublishView::Publish {
                data: message.data@,
                ordering_key: message.ordering_key@,
            },
            PublisherAction::Pause(millis) => PublishView::Pause(*millis),
            PublisherAction::Idle => PublishView::Idle,
            PublisherAction::Abort => PublishView::Abort,
        }
    }
}

/// The message that carries `word`: its bytes as payload, under the one
/// ordering key.
pub open spec fn message_for(word: Seq<char>) -> PublishView {
    PublishView::Publish { data: encode_utf8(word), ordering_key: ORDERING_KEY@ }
}

/// What follows once the message before is done with: the next word goes
/// out, or the publisher falls idle where none is left.
pub open spec fn advance(words: Seq<Seq<char>>, sent: usize) -> (PublisherState, PublishView) {
    if sent < words.len() {
        (
            PublisherState {
                phase: PublisherPhase::AwaitingConfirmation,
                sent: (sent + 1) as usize,
            },
            message_for(words[sent as int]),
        )
    } else {
        (PublisherState { phase: PublisherPhase::Idle, sent }, PublishView::Idle)
    }
}

/// The state that follows `state` on `event`, and what is to be done next,
/// for a run that publishes `words` and pauses `delay_ms` after each.
///
/// A confirmed message is followed by the pause, where there is one, and
/// then by the next word. A refused message ends the run, and so does an
/// event that the phase does not wait for. An idle publisher stays idle.
pub open spec fn next_step(
    words: Seq<Seq<char>>,
    delay_ms: u64,
    state: PublisherState,
    event: PublisherEvent,
) -> (PublisherState, PublishView) {
    match (state.phase, event) {
        (PublisherPhase::Created, PublisherEvent::Started) => advance(words, state.sent),
        (PublisherPhase::AwaitingConfirmation, PublisherEvent::Confirmed) => {
            if delay_ms > 0 {
                (
                    PublisherState { phase: PublisherPhase::Pausing, sent: state.sent },
                    PublishView::Pause(delay_ms),
                )
            } else {
                advance(words, state.sent)
            }
        },
        (PublisherPhase::Pausing, PublisherEvent::Paused) => advance(words, state.sent),
        (PublisherPhase::Idle, _) => (state, PublishView::Idle),
        _ => (
            PublisherState { phase: PublisherPhase::Aborted, sent: state.sent },
            PublishView::Abort,
        ),
    }
}

/// The state in which every run begins.
pub open spec fn initial_state() -> PublisherState {
    PublisherState { phase: PublisherPhase::Created, sent: 0 }
}

/// The state in which every run begins.
pub fn initial() -> (state: PublisherState)
    ensures
        state == initial_state(),
{
    PublisherState { phase: PublisherPhase::Created, sent: 0 }
}

/// The texts of `words`.
pub open spec fn texts(words: Seq<String>) -> Seq<Seq<char>> {
    Seq::new(words.len(), |i: int| words[i]@)
}

fn advance_exec(words: &Vec<String>, sent: usize) -> (r: (PublisherState, PublisherAction))
    ensures
        (r.0, r.1@) == advance(texts(words@), sent),
{
    if sent < words.len() {
        let data = words[sent].as_str().as_bytes_vec();
        let message = OutgoingMessage { data, ordering_key: ORDERING_KEY.to_owned() };
        (
            PublisherState { phase: PublisherPhase::AwaitingConfirmation, sent: sent + 1 },
            PublisherAction::Publish(message),
        )
    } else {
        (PublisherState { phase: PublisherPhase::Idle, sent }, PublisherAction::Idle)
    }
}

/// Takes one event in `state` and says where the publisher stands after it
/// and what is to be done next.
pub fn step(words: &Vec<String>, delay_ms: u64, state: PublisherState, event: PublisherEvent) -> (r:
    (PublisherState, PublisherAction))
    ensures
        (r.0, r.1@) == next_step(texts(words@), delay_ms, state, event),
{
    match state.phase {
        PublisherPhase::Created => match event {
            PublisherEvent::Started => advance_exec(words, state.sent),
            _ => (
                PublisherState { phase: PublisherPhase::Aborted, sent: state.sent },
                PublisherAction::Abort,
            ),
        },
        PublisherPhase::AwaitingConfirmation => match event {
            PublisherEvent::Confirmed => {
                if delay_ms > 0 {
                    (
                        PublisherState { phase: PublisherPhase::Pausing, sent: state.sent },
                        PublisherAction::Pause(delay_ms),
                    )
                } else {
                    advance_exec(words, state.sent)
                }
            },
            _ => (
                PublisherState { phase: PublisherPhase::Aborted, sent: state.sent },
                PublisherAction::Abort,
            ),
        },
        PublisherPhase::Pausing => match event {
            PublisherEvent::Paused => advance_exec(words, state.sent),
            _ => (
                PublisherState { phase: PublisherPhase::Aborted, sent: state.sent },
                PublisherAction::Abort,
            ),
        },
        PublisherPhase::Idle => (state, PublisherAction::Idle),
        PublisherPhase::Aborted => (
            PublisherState { phase: PublisherPhase::Aborted, sent: state.sent },
            PublisherAction::Abort,
        ),
    }
}

/// The state of a run of `words` that began in the initial state and has
/// taken `events`.
pub open spec fn state_after(words: Seq<Seq<char>>, delay_ms: u64, events: Seq<PublisherEvent>)
    -> PublisherState
    decreases events.len(),
{
    if events.len() == 0 {
        initial_state()
    } else {
        next_step(words, delay_ms, state_after(words, delay_ms, events.drop_last()), events.last()).0
    }
}

/// The action that answered the last of `events`, which is not empty.
pub open spec fn last_action(words: Seq<Seq<char>>, delay_ms: u64, events: Seq<PublisherEvent>)
    -> PublishView {
    next_step(words, delay_ms, state_after(words, delay_ms, events.drop_last()), events.last()).1
}

/// The messages that a run has handed out while it took `events`, in the
/// order in which it did.
pub open spec fn published(words: Seq<Seq<char>>, delay_ms: u64, events: Seq<PublisherEvent>)
    -> Seq<PublishView>
    decreases events.len(),
{
    if events.len() == 0 {
        Seq::empty()
    } else {
        let before = published(words, delay_ms, events.drop_last());
        match last_action(words, delay_ms, events) {
            PublishView::Publish { .. } => before.push(last_action(words, delay_ms, events)),
            _ => before,
        }
    }
}

/// How many confirmations a run has taken for messages that were out while
/// it took `events`.
pub open spec fn confirmations(words: Seq<Seq<char>>, delay_ms: u64, events: Seq<PublisherEvent>)
    -> nat
    decreases events.len(),
{
    if events.len() == 0 {
        0
    } else {
        let before = confirmations(words, delay_ms, events.drop_last());
        if state_after(words, delay_ms, events.drop_last()).phase
            == PublisherPhase::AwaitingConfirmation && events.last() == PublisherEvent::Confirmed {
            before + 1
        } else {
            before
        }
    }
}

/// The words go out in their order, each once and none left out: whatever
/// events a run has taken, the messages it has handed out are those for the
/// first words, one for each, in the order of the words.
pub proof fn lemma_published_in_order(
    words: Seq<Seq<char>>,
    delay_ms: u64,
    events: Seq<PublisherEvent>,
)
    requires
        words.len() <= usize::MAX,
    ensures
        state_after(words, delay_ms, events).sent <= words.len(),
        published(words, delay_ms, events) == Seq::new(
            state_after(words, delay_ms, events).sent as nat,
            |i: int| message_for(words[i]),
        ),
    decreases events.len(),
{
    if events.len() > 0 {
        lemma_published_in_order(words, delay_ms, events.drop_last());
        let before = state_after(words, delay_ms, events.drop_last());
        let sent = state_after(words, delay_ms, events).sent;
        assert(published(words, delay_ms, events) == Seq::new(
            sent as nat,
            |i: int| message_for(words[i]),
        ));
    } else {
        assert(published(words, delay_ms, events) == Seq::new(
            0nat,
            |i: int| message_for(words[i]),
        ));
    }
}

/// At most one message is ever unconfirmed: whatever events a run has
/// taken, the messages handed out exceed the confirmations taken by one
/// while a message is out, by at most one after the run was given up, and
/// by none otherwise.
pub proof fn lemma_one_message_in_flight(
    words: Seq<Seq<char>>,
    delay_ms: u64,
    events: Seq<PublisherEvent>,
)
    requires
        words.len() <= usize::MAX,
    ensures
        ({
            let state = state_after(words, delay_ms, events);
            let confirmed = confirmations(words, delay_ms, events);
            match state.phase {
                PublisherPhase::AwaitingConfirmation => state.sent == confirmed + 1,
                PublisherPhase::Aborted => confirmed <= state.sent <= confirmed + 1,
                _ => state.sent == confirmed,
            }
        }),
    decreases events.len(),
{
    if events.len() > 0 {
        lemma_one_message_in_flight(words, delay_ms, events.drop_last());
        lemma_published_in_order(words, delay_ms, events.drop_last());
    }
}

} // verus!

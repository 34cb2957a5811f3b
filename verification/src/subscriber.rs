//! The durable subscriber: what it does with each message, decided from the
//! state it is in and the event that the transport or the storage reports.
//!
//! A message is acknowledged only after its word has been stored, or where
//! it carries no word at all. A failed store ends the run without an
//! acknowledgement, so that the transport delivers the message again.

use vstd::prelude::*;
use vstd::utf8::{decode_utf8, valid_utf8};

verus! {

/// Where the subscriber stands between two events.
#[derive(Debug, Clone, Copy, PartialEq, Eq, Structural)]
pub enum SubscriberState {
    /// Waiting for the next message.
    Receiving,
    /// Waiting for the storage to take the word of the message in hand.
    Persisting,
    /// Waiting for the transport to take the acknowledgement.
    Acknowledging,
    /// The stream has ended; nothing is left to do.
    Finished,
    /// The run was given up.
    Failed,
}

/// What the outside reports to the subscriber.
#[derive(Debug, Clone)]
pub enum SubscriberEvent {
    /// A message arrived with this payload.
    Received(Vec<u8>),
    /// The stream of messages has ended.
    StreamEnded,
    /// The storage took the word.
    Persisted,
    /// The storage refused the word.
    PersistFailed,
    /// The transport took the acknowledgement.
    Acknowledged,
    /// The transport refused the acknowledgement.
    AcknowledgeFailed,
}

/// Why a run ended.
#[derive(Debug, Clone, Copy, PartialEq, Eq, Structural)]
pub enum Outcome {
    /// The stream ended after every message had been dealt with.
    Completed,
    /// The storage refused a word; its message stays unacknowledged.
    PersistFailed,
    /// The transport refused an acknowledgement.
    AcknowledgeFailed,
    /// An event arrived that the state does not wait for.
    OutOfTurn,
}

/// What the subscriber asks the outside to do next.
#[derive(Debug, Clone)]
pub enum SubscriberAction {
    /// Wait for the next message.
    Receive,
    /// Store this word.
    Persist(String),
    /// Acknowledge the message in hand.
    Acknowledge,
    /// Stop, for this reason.
    Stop(Outcome),
}

/// `SubscriberEvent` as mathematical values.
pub ghost enum EventView {
    Received(Seq<u8>),
    StreamEnded,
    Persisted,
    PersistFailed,
    Acknowledged,
    AcknowledgeFailed,
}

/// `SubscriberAction` as mathematical values.
pub ghost enum ActionView {
    Receive,
    Persist(Seq<char>),
    Acknowledge,
    Stop(Outcome),
}

impl View for SubscriberEvent {
    type V = EventView;

    open spec fn view(&self) -> EventView {
        match self {
            SubscriberEvent::Received(payload) => EventView::Received(payload@),
            SubscriberEvent::StreamEnded => EventView::StreamEnded,
            SubscriberEvent::Persisted => EventView::Persisted,
            SubscriberEvent::PersistFailed => EventView::PersistFailed,
            SubscriberEvent::Acknowledged => EventView::Acknowledged,
            SubscriberEvent::AcknowledgeFailed => EventView::AcknowledgeFailed,
        }
    }
}

impl View for SubscriberAction {
    type V = ActionView;

    open spec fn view(&self) -> ActionView {
        match self {
            SubscriberAction::Receive => ActionView::Receive,
            SubscriberAction::Persist(word) => ActionView::Persist(word@),
            SubscriberAction::Acknowledge => ActionView::Acknowledge,
            SubscriberAction::Stop(outcome) => ActionView::Stop(*outcome),
        }
    }
}

/// The text that a payload carries: its characters where it is well-formed
/// UTF-8, and no text at all where it is not.
pub open spec fn payload_text(payload: Seq<u8>) -> Seq<char> {
    if valid_utf8(payload) {
        decode_utf8(payload)
    } else {
        Seq::empty()
    }
}

/// `String::from_utf8`: the text that the bytes encode where they are
/// well-formed UTF-8, and none where they are not.
#[verifier::external_body]
fn text_from_utf8(bytes: Vec<u8>) -> (r: Option<String>)
    ensures
        valid_utf8(bytes@) ==> r is Some && r->Some_0@ == decode_utf8(bytes@),
        !valid_utf8(bytes@) ==> r is None,
{
    String::from_utf8(bytes).ok()
}

/// Reads a payload as text; one that is no UTF-8 counts as empty.
pub fn decode_payload(payload: Vec<u8>) -> (text: String)
    ensures
        text@ == payload_text(payload@),
{
    match text_from_utf8(payload) {
        Some(text) => text,
        None => String::new(),
    }
}

/// Whether `event` is a message without a word: one whose payload carries
/// no text.
pub open spec fn is_wordless_message(event: EventView) -> bool {
    match event {
        EventView::Received(payload) => payload_text(payload).len() == 0,
        _ => false,
    }
}

/// Whether `event` is a message that carries the word `word`.
pub open spec fn is_message_with(event: EventView, word: Seq<char>) -> bool {
    match event {
        EventView::Received(payload) => word.len() > 0 && payload_text(payload) == word,
        _ => false,
    }
}

/// Whether `action` is to stop.
pub open spec fn is_stop(action: ActionView) -> bool {
    match action {
        ActionView::Stop(_) => true,
        _ => false,
    }
}

/// Whether a run has ended in `state`.
pub open spec fn is_final(state: SubscriberState) -> bool {
    state == SubscriberState::Finished || state == SubscriberState::Failed
}

/// The state that follows `state` on `event`, and what is to be done next.
///
/// A message with a word has its word stored and is acknowledged after
/// that; a message without one is acknowledged at once. After the
/// acknowledgement the next message is awaited. A refused word or a refused
/// acknowledgement ends the run, and so does the end of the stream. An
/// event that the state does not wait for ends the run as well; a run that
/// has ended stays as it ended.
pub open spec fn next_step(state: SubscriberState, event: EventView) -> (
    SubscriberState,
    ActionView,
) {
    match (state, event) {
        (SubscriberState::Receiving, EventView::Received(payload)) => {
            if payload_text(payload).len() == 0 {
                (SubscriberState::Acknowledging, ActionView::Acknowledge)
            } else {
                (SubscriberState::Persisting, ActionView::Persist(payload_text(payload)))
            }
        },
        (SubscriberState::Receiving, EventView::StreamEnded) => (
            SubscriberState::Finished,
            ActionView::Stop(Outcome::Completed),
        ),
        (SubscriberState::Persisting, EventView::Persisted) => (
            SubscriberState::Acknowledging,
            ActionView::Acknowledge,
        ),
        (SubscriberState::Persisting, EventView::PersistFailed) => (
            SubscriberState::Failed,
            ActionView::Stop(Outcome::PersistFailed),
        ),
        (SubscriberState::Acknowledging, EventView::Acknowledged) => (
            SubscriberState::Receiving,
            ActionView::Receive,
        ),
        (SubscriberState::Acknowledging, EventView::AcknowledgeFailed) => (
            SubscriberState::Failed,
            ActionView::Stop(Outcome::AcknowledgeFailed),
        ),
        (SubscriberState::Finished, _) => (
            SubscriberState::Finished,
            ActionView::Stop(Outcome::OutOfTurn),
        ),
        _ => (SubscriberState::Failed, ActionView::Stop(Outcome::OutOfTurn)),
    }
}

/// The state in which a run begins; its first action is to receive.
pub fn start() -> (r: (SubscriberState, SubscriberAction))
    ensures
        r.0 == SubscriberState::Receiving,
        r.1@ == ActionView::Receive,
{
    (SubscriberState::Receiving, SubscriberAction::Receive)
}

/// Takes one event in `state` and says where the subscriber stands after it
/// and what is to be done next.
pub fn step(state: SubscriberState, event: SubscriberEvent) -> (r: (
    SubscriberState,
    SubscriberAction,
))
    ensures
        (r.0, r.1@) == next_step(state, event@),
        r.1@ == ActionView::Acknowledge ==> (state == SubscriberState::Persisting && event@
            == EventView::Persisted) || (state == SubscriberState::Receiving
            && is_wordless_message(event@)),
        event@ == EventView::PersistFailed ==> is_final(r.0) && is_stop(r.1@),
{
    match state {
        SubscriberState::Receiving => match event {
            SubscriberEvent::Received(payload) => {
                let text = decode_payload(payload);
                if text.as_str().is_empty() {
                    (SubscriberState::Acknowledging, SubscriberAction::Acknowledge)
                } else {
                    (SubscriberState::Persisting, SubscriberAction::Persist(text))
                }
            },
            SubscriberEvent::StreamEnded => (
                SubscriberState::Finished,
                SubscriberAction::Stop(Outcome::Completed),
            ),
            _ => (SubscriberState::Failed, SubscriberAction::Stop(Outcome::OutOfTurn)),
        },
        SubscriberState::Persisting => match event {
            SubscriberEvent::Persisted => (
                SubscriberState::Acknowledging,
                SubscriberAction::Acknowledge,
            ),
            SubscriberEvent::PersistFailed => (
                SubscriberState::Failed,
                SubscriberAction::Stop(Outcome::PersistFailed),
            ),
            _ => (SubscriberState::Failed, SubscriberAction::Stop(Outcome::OutOfTurn)),
        },
        SubscriberState::Acknowledging => match event {
            SubscriberEvent::Acknowledged => (SubscriberState::Receiving, SubscriberAction::Receive),
            SubscriberEvent::AcknowledgeFailed => (
                SubscriberState::Failed,
                SubscriberAction::Stop(Outcome::AcknowledgeFailed),
            ),
            _ => (SubscriberState::Failed, SubscriberAction::Stop(Outcome::OutOfTurn)),
        },
        SubscriberState::Finished => (
            SubscriberState::Finished,
            SubscriberAction::Stop(Outcome::OutOfTurn),
        ),
        SubscriberState::Failed => (SubscriberState::Failed, SubscriberAction::Stop(Outcome::OutOfTurn)),
    }
}

/// The state of a run that began with `start` and has taken `events`.
pub open spec fn state_after(events: Seq<EventView>) -> SubscriberState
    decreases events.len(),
{
    if events.len() == 0 {
        SubscriberState::Receiving
    } else {
        next_step(state_after(events.drop_last()), events.last()).0
    }
}

/// The action that answers the `k`-th event of a run that began with `start`.
pub open spec fn action_at(events: Seq<EventView>, k: int) -> ActionView {
    next_step(state_after(events.take(k)), events[k]).1
}

/// An acknowledgement always answers a stored word or a message without
/// one: where the `k`-th event of a run is answered by an acknowledgement,
/// either that event is a message whose payload carries no text, or it is
/// the storage's report that it took the word, and the event before it was
/// a message with a word that was answered by storing that word.
pub proof fn lemma_acknowledged_only_after_persisted(events: Seq<EventView>, k: int)
    requires
        0 <= k < events.len(),
        action_at(events, k) == ActionView::Acknowledge,
    ensures
        is_wordless_message(events[k]) || (events[k] == EventView::Persisted && k > 0
            && exists|word: Seq<char>|
            #[trigger] is_message_with(events[k - 1], word) && ActionView::Persist(word)
                == action_at(events, k - 1)),
{
    let before = events.take(k);
    if events[k] == EventView::Persisted {
        assert(state_after(before) == SubscriberState::Persisting);
        assert(k > 0);
        assert(before.drop_last() == events.take(k - 1));
        assert(before.last() == events[k - 1]);
        let (_, action) = next_step(state_after(events.take(k - 1)), events[k - 1]);
        match events[k - 1] {
            EventView::Received(payload) => {
                let word = payload_text(payload);
                assert(is_message_with(events[k - 1], word));
                assert(ActionView::Persist(word) == action_at(events, k - 1));
            },
            _ => {},
        }
    }
}

/// A run that has ended stays ended: no event brings it back to work, and
/// every event after the end is answered by stopping.
pub proof fn lemma_ended_runs_stay_ended(state: SubscriberState, event: EventView)
    requires
        is_final(state),
    ensures
        next_step(state, event).0 == state,
        is_stop(next_step(state, event).1),
{
}

/// After a refused word nothing is acknowledged any more: where the `k`-th
/// event of a run is the storage's refusal of a word, that event and every
/// later one is answered by stopping, and the run has ended.
pub proof fn lemma_nothing_acknowledged_after_failure(events: Seq<EventView>, k: int, j: int)
    requires
        0 <= k <= j < events.len(),
        events[k] == EventView::PersistFailed,
    ensures
        is_stop(action_at(events, j)),
        is_final(state_after(events.take(j + 1))),
    decreases j - k,
{
    assert(events.take(j + 1).drop_last() == events.take(j));
    assert(events.take(j + 1).last() == events[j]);
    if j > k {
        lemma_nothing_acknowledged_after_failure(events, k, j - 1);
    }
}

} // verus!
